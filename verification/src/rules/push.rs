//! Push resolution: which pieces a move displaces, and where to.
use vstd::prelude::*;
use arrayvec::ArrayVec;
use super::bounded::{chain_get, chain_items, chain_len, chain_new, chain_push, route_clone, route_get,
    route_items, route_len, route_new, route_push, route_slice};
use super::position::Position;
use super::types::{
    Color, Piece, PieceType, Square, file_of, make_square, rank_of, spec_file_of, spec_make_square,
    spec_rank_of, spec_valid_rf, valid_rf,
};

verus! {

/// The offset `n` steps along a direction component `d` (-1, 0 or 1).
pub open spec fn steps(n: int, d: int) -> int {
    if d > 0 {
        n
    } else if d < 0 {
        -n
    } else {
        0
    }
}

/// Rank of the `n`-th square along the ray from `from` in direction (`dr`, `dc`).
pub open spec fn ray_rank(from: Square, dr: int, n: int) -> int {
    spec_rank_of(from) + steps(n, dr)
}

pub open spec fn ray_file(from: Square, dc: int, n: int) -> int {
    spec_file_of(from) + steps(n, dc)
}

pub open spec fn ray_on_board(from: Square, dr: int, dc: int, n: int) -> bool {
    spec_valid_rf(ray_rank(from, dr, n), ray_file(from, dc, n))
}

/// The `n`-th square along the ray (meaningful where the ray is on the board).
pub open spec fn ray_sq(from: Square, dr: int, dc: int, n: int) -> Square {
    spec_make_square(ray_rank(from, dr, n), ray_file(from, dc, n))
}

/// How the walk from the mover to the destination ends.
pub enum PathScan {
    /// Off the board, an enemy piece short of the destination, or an enemy on
    /// the destination behind friendly pieces.
    Blocked,
    /// An enemy on the destination and nothing but empty squares before it.
    Capture,
    /// The destination, reached at the given step, with the friendly pieces
    /// met on the way (destination included), in order.
    Reached(nat, Seq<Square>),
}

/// The walk from the `n`-th square of the ray to the destination, having met
/// the friendly pieces in `chain` so far.
pub open spec fn scan_path(
    board: Seq<Piece>,
    from: Square,
    to: Square,
    dr: int,
    dc: int,
    mover: Color,
    n: nat,
    chain: Seq<Square>,
) -> PathScan
    decreases 8 - n,
{
    if n >= 8 || !ray_on_board(from, dr, dc, n as int) {
        PathScan::Blocked
    } else {
        let sq = ray_sq(from, dr, dc, n as int);
        let piece = board[sq as int];
        if !piece.spec_is_empty() && !piece.spec_is_color(mover) {
            if sq == to && chain.len() == 0 {
                PathScan::Capture
            } else {
                PathScan::Blocked
            }
        } else {
            let next = if piece.spec_is_color(mover) {
                chain.push(sq)
            } else {
                chain
            };
            if sq == to {
                PathScan::Reached(n, next)
            } else {
                scan_path(board, from, to, dr, dc, mover, n + 1, next)
            }
        }
    }
}

/// Beyond the destination every friendly piece of the chain needs a free
/// slot; friendly pieces found there join the chain. `n` is the last square
/// examined and `slots` the number of squares examined past the destination.
pub open spec fn scan_slots(
    board: Seq<Piece>,
    from: Square,
    dr: int,
    dc: int,
    mover: Color,
    n: nat,
    slots: nat,
    chain: Seq<Square>,
) -> Option<Seq<Square>>
    decreases 8 - n,
{
    if slots >= chain.len() {
        Some(chain)
    } else if n + 1 >= 8 || !ray_on_board(from, dr, dc, (n + 1) as int) {
        None
    } else {
        let sq = ray_sq(from, dr, dc, (n + 1) as int);
        let piece = board[sq as int];
        if piece.spec_is_color(mover) {
            scan_slots(board, from, dr, dc, mover, n + 1, slots + 1, chain.push(sq))
        } else if !piece.spec_is_empty() {
            None
        } else {
            scan_slots(board, from, dr, dc, mover, n + 1, slots + 1, chain)
        }
    }
}

/// A resolved push: its displacements (each source refers to the original
/// board) and its captured square, if any.
pub type PlanSpec = (Seq<(Square, Square)>, Option<Square>);

/// The push of the piece on `from` to `to` along direction (`dr`, `dc`): the
/// mover goes to `to` and the k-th friendly piece met on the way (or in the
/// run of friendly pieces right behind the destination) goes k squares past
/// the destination. An enemy piece may only be captured on the destination
/// when no friendly piece stands in between.
pub open spec fn spec_resolve_push(
    board: Seq<Piece>,
    from: Square,
    to: Square,
    dr: int,
    dc: int,
) -> Option<PlanSpec> {
    if from >= 64 || to >= 64 || from == to || !(-1 <= dr <= 1) || !(-1 <= dc <= 1) || (dr == 0
        && dc == 0) || board[from as int].spec_is_empty() {
        None
    } else {
        let mover = board[from as int].color;
        match scan_path(board, from, to, dr, dc, mover, 1, Seq::empty()) {
            PathScan::Blocked => None,
            PathScan::Capture => Some((seq![(from, to)], Some(to))),
            PathScan::Reached(k, chain) => match scan_slots(
                board,
                from,
                dr,
                dc,
                mover,
                k,
                0,
                chain,
            ) {
                None => None,
                Some(full) => Some(
                    (
                        seq![(from, to)] + Seq::new(
                            full.len(),
                            |i: int| (full[i], ray_sq(from, dr, dc, k + i + 1)),
                        ),
                        None,
                    ),
                ),
            },
        }
    }
}

/// Clear every source of the first `n` displacements.
pub open spec fn clear_sources(board: Seq<Piece>, moves: Seq<(Square, Square)>, n: nat) -> Seq<Piece>
    decreases n,
{
    if n == 0 || n > moves.len() {
        board
    } else {
        clear_sources(board, moves, (n - 1) as nat).update(moves[n - 1].0 as int, Piece::empty())
    }
}

/// Place the original occupant of every source of the first `n`
/// displacements on its target.
pub open spec fn place_targets(
    board: Seq<Piece>,
    original: Seq<Piece>,
    moves: Seq<(Square, Square)>,
    n: nat,
) -> Seq<Piece>
    decreases n,
{
    if n == 0 || n > moves.len() {
        board
    } else {
        place_targets(board, original, moves, (n - 1) as nat).update(
            moves[n - 1].1 as int,
            original[moves[n - 1].0 as int],
        )
    }
}

/// The board after a plan: sources and the captured square are emptied, then
/// every target receives what stood on its source on the original board.
pub open spec fn apply_plan(board: Seq<Piece>, plan: PlanSpec) -> Seq<Piece> {
    let cleared = clear_sources(board, plan.0, plan.0.len());
    let emptied = match plan.1 {
        Some(sq) => cleared.update(sq as int, Piece::empty()),
        None => cleared,
    };
    place_targets(emptied, board, plan.0, plan.0.len())
}

/// Whether a plan moves a piece from or to `q`, or captures on `q`.
pub open spec fn plan_touches(plan: PlanSpec, q: int) -> bool {
    ||| exists|i: int| 0 <= i < plan.0.len() && (#[trigger] plan.0[i]).0 == q
    ||| exists|i: int| 0 <= i < plan.0.len() && (#[trigger] plan.0[i]).1 == q
    ||| plan.1 == Some(q as Square)
}

proof fn lemma_clear_sources_frame(board: Seq<Piece>, moves: Seq<(Square, Square)>, n: nat, q: int)
    requires
        n <= moves.len(),
        0 <= q < board.len(),
        forall|i: int| 0 <= i < moves.len() ==> (#[trigger] moves[i]).0 < board.len(),
        !(exists|i: int| 0 <= i < moves.len() && (#[trigger] moves[i]).0 == q),
    ensures
        clear_sources(board, moves, n).len() == board.len(),
        clear_sources(board, moves, n)[q] == board[q],
    decreases n,
{
    if n > 0 {
        lemma_clear_sources_frame(board, moves, (n - 1) as nat, q);
        assert(moves[n - 1].0 != q);
    }
}

proof fn lemma_place_targets_frame(
    board: Seq<Piece>,
    original: Seq<Piece>,
    moves: Seq<(Square, Square)>,
    n: nat,
    q: int,
)
    requires
        n <= moves.len(),
        0 <= q < board.len(),
        forall|i: int| 0 <= i < moves.len() ==> (#[trigger] moves[i]).1 < board.len(),
        !(exists|i: int| 0 <= i < moves.len() && (#[trigger] moves[i]).1 == q),
    ensures
        place_targets(board, original, moves, n).len() == board.len(),
        place_targets(board, original, moves, n)[q] == board[q],
    decreases n,
{
    if n > 0 {
        lemma_place_targets_frame(board, original, moves, (n - 1) as nat, q);
        assert(moves[n - 1].1 != q);
    }
}

proof fn lemma_clear_sources_len(board: Seq<Piece>, moves: Seq<(Square, Square)>, n: nat)
    requires
        n <= moves.len(),
        forall|i: int| 0 <= i < moves.len() ==> (#[trigger] moves[i]).0 < board.len(),
    ensures
        clear_sources(board, moves, n).len() == board.len(),
    decreases n,
{
    if n > 0 {
        lemma_clear_sources_len(board, moves, (n - 1) as nat);
    }
}

proof fn lemma_place_targets_len(board: Seq<Piece>, original: Seq<Piece>, moves: Seq<(Square, Square)>, n: nat)
    requires
        n <= moves.len(),
        forall|i: int| 0 <= i < moves.len() ==> (#[trigger] moves[i]).1 < board.len(),
    ensures
        place_targets(board, original, moves, n).len() == board.len(),
    decreases n,
{
    if n > 0 {
        lemma_place_targets_len(board, original, moves, (n - 1) as nat);
    }
}

/// A plan changes no square that it does not touch, and keeps the board's size.
pub proof fn lemma_apply_plan_frame(board: Seq<Piece>, plan: PlanSpec)
    requires
        board.len() == 64,
        plan_on_board(plan),
    ensures
        apply_plan(board, plan).len() == 64,
        forall|q: int| 0 <= q < 64 && !plan_touches(plan, q) ==> #[trigger] apply_plan(board, plan)[q] == board[q],
{
    lemma_clear_sources_len(board, plan.0, plan.0.len());
    let cleared = clear_sources(board, plan.0, plan.0.len());
    let emptied = match plan.1 {
        Some(sq) => cleared.update(sq as int, Piece::empty()),
        None => cleared,
    };
    assert(emptied.len() == 64);
    lemma_place_targets_len(emptied, board, plan.0, plan.0.len());
    assert forall|q: int| 0 <= q < 64 && !plan_touches(plan, q) implies #[trigger] apply_plan(board, plan)[q] == board[q] by {
        lemma_clear_sources_frame(board, plan.0, plan.0.len(), q);
        lemma_place_targets_frame(emptied, board, plan.0, plan.0.len(), q);
    }
}

/// Every square of a plan is on the board and it holds at most 16 displacements.
pub open spec fn plan_on_board(plan: PlanSpec) -> bool {
    &&& plan.0.len() <= 16
    &&& forall|i: int| 0 <= i < plan.0.len() ==> (#[trigger] plan.0[i]).0 < 64 && plan.0[i].1 < 64
    &&& plan.1 matches Some(sq) ==> sq < 64
}

/// A resolved move, never an illegal or partially built push.
///
/// Displacements are simultaneous: each source refers to the original board.
/// `None` represents an illegal path; a missing captured square a non-capture.
/// Counts cannot drift from the stored data.
#[derive(Debug)]
pub struct PushPlan {
    displacements: ArrayVec<(Square, Square), 16>,
    captured: Option<Square>,
}

impl PushPlan {
    /// The plan as (displacements, captured square).
    pub closed spec fn view(&self) -> PlanSpec {
        (route_items(self.displacements), self.captured)
    }

    pub(crate) fn single(from: Square, to: Square, captured: Option<Square>) -> (p: Self)
        ensures
            p@ == (seq![(from, to)], captured),
    {
        let mut displacements = route_new();
        route_push(&mut displacements, (from, to));
        PushPlan { displacements, captured }
    }

    /// The number of displacements.
    pub fn len(&self) -> (n: usize)
        ensures
            n == self@.0.len(),
    {
        route_len(&self.displacements)
    }

    /// The displacements, as (source, target), in order.
    pub fn displacements(&self) -> (d: &[(Square, Square)])
        ensures
            d@ == self@.0,
    {
        route_slice(&self.displacements)
    }

    /// The `i`-th displacement, as (source, target).
    pub fn displacement(&self, i: usize) -> (d: (Square, Square))
        requires
            i < self@.0.len(),
        ensures
            d == self@.0[i as int],
    {
        route_get(&self.displacements, i)
    }

    pub fn captured(&self) -> (c: Option<Square>)
        ensures
            c == self@.1,
    {
        self.captured
    }

    /// A plan with the same displacements and captured square.
    pub fn duplicate(&self) -> (p: PushPlan)
        ensures
            p@ == self@,
    {
        PushPlan { displacements: route_clone(&self.displacements), captured: self.captured }
    }

    /// Whether two plans have the same displacements and captured square.
    pub fn same_as(&self, other: &PushPlan) -> (b: bool)
        ensures
            b == (self@ == other@),
    {
        let n = route_len(&self.displacements);
        if n != route_len(&other.displacements) || self.captured != other.captured {
            return false;
        }
        let mut i: usize = 0;
        while i < n
            invariant
                i <= n,
                n == self@.0.len(),
                n == other@.0.len(),
                forall|j: int| 0 <= j < i ==> self@.0[j] == other@.0[j],
            decreases n - i,
        {
            let (a0, a1) = route_get(&self.displacements, i);
            let (b0, b1) = route_get(&other.displacements, i);
            if a0 != b0 || a1 != b1 {
                return false;
            }
            i += 1;
        }
        assert(self@.0 =~= other@.0);
        true
    }

    /// Use a snapshot so displacements cannot overwrite each other's sources.
    pub(crate) fn apply(&self, board: &mut [Piece; 64])
        requires
            plan_on_board(self@),
        ensures
            final(board)@ == apply_plan(old(board)@, self@),
    {
        let original = *board;
        let n = route_len(&self.displacements);
        let mut i: usize = 0;
        while i < n
            invariant
                n == self@.0.len(),
                i <= n,
                plan_on_board(self@),
                original@ == old(board)@,
                board@ == clear_sources(original@, self@.0, i as nat),
            decreases n - i,
        {
            let (from, _) = route_get(&self.displacements, i);
            board[from as usize] = Piece { piece_type: PieceType::Empty, color: Color::White };
            i += 1;
        }
        if let Some(sq) = self.captured {
            board[sq as usize] = Piece { piece_type: PieceType::Empty, color: Color::White };
        }
        let ghost emptied = board@;
        let mut i: usize = 0;
        while i < n
            invariant
                n == self@.0.len(),
                i <= n,
                plan_on_board(self@),
                original@ == old(board)@,
                board@ == place_targets(emptied, original@, self@.0, i as nat),
                emptied == (match self@.1 {
                    Some(sq) => clear_sources(original@, self@.0, n as nat).update(
                        sq as int,
                        Piece::empty(),
                    ),
                    None => clear_sources(original@, self@.0, n as nat),
                }),
            decreases n - i,
        {
            let (from, to) = route_get(&self.displacements, i);
            board[to as usize] = original[from as usize];
            i += 1;
        }
    }
}

impl Clone for PushPlan {
    fn clone(&self) -> (c: Self)
        ensures
            c@ == self@,
    {
        PushPlan { displacements: route_clone(&self.displacements), captured: self.captured }
    }
}

/// Two plans are equal when they displace the same pieces to the same squares,
/// in the same order, and capture the same square.
impl PartialEq for PushPlan {
    fn eq(&self, other: &PushPlan) -> (same: bool) {
        if self.captured != other.captured {
            return false;
        }
        let n = route_len(&self.displacements);
        if n != route_len(&other.displacements) {
            return false;
        }
        let mut i: usize = 0;
        while i < n
            invariant
                n == self@.0.len(),
                n == other@.0.len(),
                i <= n,
                forall|j: int| 0 <= j < i ==> self@.0[j] == other@.0[j],
            decreases n - i,
        {
            let a = route_get(&self.displacements, i);
            let b = route_get(&other.displacements, i);
            if a.0 != b.0 || a.1 != b.1 {
                return false;
            }
            i += 1;
        }
        assert(self@.0 =~= other@.0);
        true
    }
}

impl vstd::std_specs::cmp::PartialEqSpecImpl for PushPlan {
    open spec fn obeys_eq_spec() -> bool {
        true
    }

    open spec fn eq_spec(&self, other: &PushPlan) -> bool {
        self@ == other@
    }
}

impl Eq for PushPlan {
}

/// Past seven steps every ray has left the board.
pub proof fn lemma_ray_leaves_board(from: Square, dr: int, dc: int, n: int)
    requires
        from < 64,
        -1 <= dr <= 1,
        -1 <= dc <= 1,
        dr != 0 || dc != 0,
        n >= 8,
    ensures
        !ray_on_board(from, dr, dc, n),
{
}

/// Walk from the square after `from` to `to`, collecting friendly pieces.
/// `Err(true)` is a capture on `to`, `Err(false)` a blocked path; `Ok` holds
/// the chain met on the way when `to` was reached, at the returned step.
fn scan_to_destination(pos: &Position, from: Square, to: Square, dr: i32, dc: i32, mover: Color) -> (res: (
    Result<ArrayVec<Square, 8>, bool>,
    Ghost<nat>,
))
    requires
        from < 64,
        to < 64,
        -1 <= dr <= 1,
        -1 <= dc <= 1,
        dr != 0 || dc != 0,
    ensures
        ({
            let scan = scan_path(pos.board@, from, to, dr as int, dc as int, mover, 1, Seq::empty());
            match res.0 {
                Err(true) => scan == PathScan::Capture,
                Err(false) => scan == PathScan::Blocked,
                Ok(chain) => {
                    let k = res.1@;
                    &&& scan == PathScan::Reached(k, chain_items(chain))
                    &&& 1 <= k <= 7
                    &&& ray_on_board(from, dr as int, dc as int, k as int)
                    &&& to == ray_sq(from, dr as int, dc as int, k as int)
                    &&& chain_items(chain).len() <= k
                    &&& forall|i: int|
                        0 <= i < chain_items(chain).len() ==> #[trigger] chain_items(chain)[i] < 64
                },
            }
        }),
{
    let ghost board = pos.board@;
    let mut chain = chain_new();
    let mut r = rank_of(from) + dr;
    let mut f = file_of(from) + dc;
    let ghost mut n: nat = 1;
    loop
        invariant_except_break
            from < 64,
            to < 64,
            -1 <= dr <= 1,
            -1 <= dc <= 1,
            dr != 0 || dc != 0,
            board == pos.board@,
            1 <= n <= 8,
            r == ray_rank(from, dr as int, n as int),
            f == ray_file(from, dc as int, n as int),
            chain_items(chain).len() <= n - 1,
            forall|i: int| 0 <= i < chain_items(chain).len() ==> #[trigger] chain_items(chain)[i] < 64,
            scan_path(board, from, to, dr as int, dc as int, mover, n, chain_items(chain))
                == scan_path(board, from, to, dr as int, dc as int, mover, 1, Seq::empty()),
        ensures
            board == pos.board@,
            1 <= n <= 7,
            ray_on_board(from, dr as int, dc as int, n as int),
            to == ray_sq(from, dr as int, dc as int, n as int),
            chain_items(chain).len() <= n,
            forall|i: int| 0 <= i < chain_items(chain).len() ==> #[trigger] chain_items(chain)[i] < 64,
            scan_path(board, from, to, dr as int, dc as int, mover, 1, Seq::empty())
                == PathScan::Reached(n, chain_items(chain)),
        decreases 8 - n,
    {
        if !valid_rf(r, f) {
            return (Err(false), Ghost(n));
        }
        proof {
            if n >= 8 {
                lemma_ray_leaves_board(from, dr as int, dc as int, n as int);
            }
        }
        let sq = make_square(r, f);
        let piece = pos.board[sq as usize];
        if piece.is_color(mover) {
            chain_push(&mut chain, sq);
        } else if !piece.is_empty() {
            let capture = sq == to && chain_len(&chain) == 0;
            return (Err(capture), Ghost(n));
        }
        if sq == to {
            break ;
        }
        r += dr;
        f += dc;
        proof {
            n = n + 1;
        }
    }
    (Ok(chain), Ghost(n))
}

/// Every friendly piece of the chain needs a slot beyond the destination,
/// reached at step `k`; friendly pieces found there join the chain.
fn find_slots(
    pos: &Position,
    from: Square,
    to_rank: i32,
    to_file: i32,
    dr: i32,
    dc: i32,
    mover: Color,
    chain: &mut ArrayVec<Square, 8>,
    Ghost(k): Ghost<nat>,
) -> (found: bool)
    requires
        from < 64,
        to_rank == ray_rank(from, dr as int, k as int),
        to_file == ray_file(from, dc as int, k as int),
        -1 <= dr <= 1,
        -1 <= dc <= 1,
        dr != 0 || dc != 0,
        1 <= k <= 7,
        chain_items(*old(chain)).len() <= k,
        forall|i: int|
            0 <= i < chain_items(*old(chain)).len() ==> #[trigger] chain_items(*old(chain))[i] < 64,
    ensures
        found ==> {
            let full = chain_items(*final(chain));
            &&& scan_slots(pos.board@, from, dr as int, dc as int, mover, k, 0, chain_items(*old(chain)))
                == Some(full)
            &&& full.len() + k <= 7
            &&& forall|i: int| 0 <= i < full.len() ==> #[trigger] full[i] < 64
            &&& forall|j: int| k < j <= k + full.len() ==> #[trigger] ray_on_board(from, dr as int, dc as int, j)
        },
        !found ==> scan_slots(pos.board@, from, dr as int, dc as int, mover, k, 0, chain_items(*old(chain)))
            is None,
{
    let ghost board = pos.board@;
    let ghost reached = chain_items(*chain);
    assert(reached == chain_items(*old(chain)));
    let mut r = to_rank;
    let mut f = to_file;
    let mut slots_found: usize = 0;
    let ghost mut n: nat = k;
    while slots_found < chain_len(chain)
        invariant
            from < 64,
            -1 <= dr <= 1,
            -1 <= dc <= 1,
            dr != 0 || dc != 0,
            board == pos.board@,
            k <= n <= 7,
            reached == chain_items(*old(chain)),
            slots_found == n - k,
            r == ray_rank(from, dr as int, n as int),
            f == ray_file(from, dc as int, n as int),
            chain_items(*chain).len() <= n,
            forall|i: int| 0 <= i < chain_items(*chain).len() ==> #[trigger] chain_items(*chain)[i] < 64,
            forall|j: int| k < j <= n ==> #[trigger] ray_on_board(from, dr as int, dc as int, j),
            scan_slots(board, from, dr as int, dc as int, mover, n, slots_found as nat, chain_items(*chain))
                == scan_slots(board, from, dr as int, dc as int, mover, k, 0, reached),
        decreases 7 - n,
    {
        r += dr;
        f += dc;
        assert(r == ray_rank(from, dr as int, (n + 1) as int));
        assert(f == ray_file(from, dc as int, (n + 1) as int));
        if !valid_rf(r, f) {
            assert(scan_slots(board, from, dr as int, dc as int, mover, n, slots_found as nat, chain_items(*chain)) is None);
            return false;
        }
        proof {
            if n + 1 >= 8 {
                lemma_ray_leaves_board(from, dr as int, dc as int, (n + 1) as int);
            }
        }
        let sq = make_square(r, f);
        let piece = pos.board[sq as usize];
        if piece.is_color(mover) {
            chain_push(chain, sq);
        } else if !piece.is_empty() {
            assert(scan_slots(board, from, dr as int, dc as int, mover, n, slots_found as nat, chain_items(*chain)) is None);
            return false;
        }
        slots_found += 1;
        proof {
            n = n + 1;
        }
    }
    true
}
/// The plan that moves the mover to `to` and the i-th piece of the chain
/// i + 1 squares past `to`, which is step `k` of the ray.
fn chain_plan(
    from: Square,
    to: Square,
    to_rank: i32,
    to_file: i32,
    dr: i32,
    dc: i32,
    chain: &ArrayVec<Square, 8>,
    Ghost(k): Ghost<nat>,
) -> (plan: PushPlan)
    requires
        from < 64,
        to < 64,
        -1 <= dr <= 1,
        -1 <= dc <= 1,
        1 <= k,
        chain_items(*chain).len() + k <= 7,
        to_rank == ray_rank(from, dr as int, k as int),
        to_file == ray_file(from, dc as int, k as int),
        forall|i: int| 0 <= i < chain_items(*chain).len() ==> #[trigger] chain_items(*chain)[i] < 64,
        forall|j: int|
            k < j <= k + chain_items(*chain).len() ==> #[trigger] ray_on_board(
                from,
                dr as int,
                dc as int,
                j,
            ),
    ensures
        plan@ == (
            seq![(from, to)] + Seq::new(
                chain_items(*chain).len(),
                |i: int| (chain_items(*chain)[i], ray_sq(from, dr as int, dc as int, k + i + 1)),
            ),
            None::<Square>,
        ),
        plan_on_board(plan@),
        plan@.0.len() <= 8,
{
    let ghost full = chain_items(*chain);
    let mut plan = PushPlan::single(from, to, None);
    let count = chain_len(chain);
    let mut i: usize = 0;
    while i < count
        invariant
            count == full.len(),
            full == chain_items(*chain),
            count + k <= 7,
            i <= count,
            1 <= k,
            -1 <= dr <= 1,
            -1 <= dc <= 1,
            from < 64,
            to < 64,
            to_rank == ray_rank(from, dr as int, k as int),
            to_file == ray_file(from, dc as int, k as int),
            forall|i: int| 0 <= i < full.len() ==> #[trigger] full[i] < 64,
            forall|j: int| k < j <= k + full.len() ==> #[trigger] ray_on_board(from, dr as int, dc as int, j),
            route_items(plan.displacements) == seq![(from, to)] + Seq::new(
                i as nat,
                |j: int| (full[j], ray_sq(from, dr as int, dc as int, k + j + 1)),
            ),
            plan.captured is None,
        decreases count - i,
    {
        let distance = i as i32 + 1;
        proof {
            assert(-8 <= dr * distance <= 8) by (nonlinear_arith)
                requires
                    -1 <= dr <= 1,
                    1 <= distance <= 8,
            ;
            assert(-8 <= dc * distance <= 8) by (nonlinear_arith)
                requires
                    -1 <= dc <= 1,
                    1 <= distance <= 8,
            ;
            assert(ray_on_board(from, dr as int, dc as int, k + i + 1));
        }
        let target_rank = to_rank + dr * distance;
        let target_file = to_file + dc * distance;
        proof {
            assert(target_rank == ray_rank(from, dr as int, k + i + 1)) by (nonlinear_arith)
                requires
                    target_rank == to_rank + dr * distance,
                    distance == i + 1,
                    -1 <= dr <= 1,
                    to_rank == ray_rank(from, dr as int, k as int),
            ;
            assert(target_file == ray_file(from, dc as int, k + i + 1)) by (nonlinear_arith)
                requires
                    target_file == to_file + dc * distance,
                    distance == i + 1,
                    -1 <= dc <= 1,
                    to_file == ray_file(from, dc as int, k as int),
            ;
        }
        let target = make_square(target_rank, target_file);
        let source = chain_get(chain, i);
        route_push(&mut plan.displacements, (source, target));
        proof {
            assert(route_items(plan.displacements) =~= seq![(from, to)] + Seq::new(
                (i + 1) as nat,
                |j: int| (full[j], ray_sq(from, dr as int, dc as int, k + j + 1)),
            ));
        }
        i += 1;
    }
    proof {
        let moves = route_items(plan.displacements);
        assert forall|j: int| 0 <= j < moves.len() implies (#[trigger] moves[j]).0 < 64 && moves[j].1
            < 64 by {
            if j > 0 {
                assert(ray_on_board(from, dr as int, dc as int, k + (j - 1) + 1));
            }
        }
    }
    plan
}

/// Resolve a straight path. Invalid public inputs return `None`, never loop.
#[verifier::rlimit(40)]
pub fn resolve_push(pos: &Position, from: Square, to: Square, dr: i32, dc: i32) -> (r: Option<
    PushPlan,
>)
    ensures
        match r {
            None => spec_resolve_push(pos.board@, from, to, dr as int, dc as int) is None,
            Some(p) => spec_resolve_push(pos.board@, from, to, dr as int, dc as int) == Some(p@)
                && plan_on_board(p@) && p@.0.len() <= 8,
        },
{
    if from >= 64 || to >= 64 || from == to || !(-1 <= dr && dr <= 1) || !(-1 <= dc && dc <= 1)
        || (dr == 0 && dc == 0) || pos.board[from as usize].is_empty() {
        return None;
    }
    let mover_color = pos.board[from as usize].color;
    let ghost board = pos.board@;
    let (scan, Ghost(k)) = scan_to_destination(pos, from, to, dr, dc, mover_color);
    let ghost path = scan_path(board, from, to, dr as int, dc as int, mover_color, 1, Seq::empty());
    let mut chain = match scan {
        Err(true) => {
            return Some(PushPlan::single(from, to, Some(to)));
        },
        Err(false) => {
            return None;
        },
        Ok(chain) => chain,
    };
    let to_rank = rank_of(to);
    let to_file = file_of(to);
    let ghost reached = chain_items(chain);
    assert(path == PathScan::Reached(k, reached));
    assert(to_rank == ray_rank(from, dr as int, k as int));
    assert(to_file == ray_file(from, dc as int, k as int));
    if !find_slots(pos, from, to_rank, to_file, dr, dc, mover_color, &mut chain, Ghost(k)) {
        return None;
    }
    let plan = chain_plan(from, to, to_rank, to_file, dr, dc, &chain, Ghost(k));
    assert(spec_resolve_push(board, from, to, dr as int, dc as int) == Some(plan@));
    Some(plan)
}

pub open spec fn sign(x: int) -> int {
    if x > 0 {
        1
    } else if x < 0 {
        -1
    } else {
        0
    }
}

pub open spec fn abs(x: int) -> int {
    if x < 0 {
        -x
    } else {
        x
    }
}

/// A leg of a knight route: (rank step, file step, length).
pub type Leg = (int, int, int);

/// The two legs of the knight route from `from` to `to`: the long leg (two
/// squares) first or the short one, as asked; `None` unless `to` is a knight's
/// jump away.
pub open spec fn knight_route(from: Square, to: Square, long_first: bool) -> Option<(Leg, Leg)> {
    let dr = spec_rank_of(to) - spec_rank_of(from);
    let dc = spec_file_of(to) - spec_file_of(from);
    if !((abs(dr) == 1 && abs(dc) == 2) || (abs(dr) == 2 && abs(dc) == 1)) {
        None
    } else {
        let long: Leg = if abs(dr) == 2 {
            (sign(dr), 0, 2)
        } else {
            (0, sign(dc), 2)
        };
        let short: Leg = if abs(dr) == 2 {
            (0, sign(dc), 1)
        } else {
            (sign(dr), 0, 1)
        };
        if long_first {
            Some((long, short))
        } else {
            Some((short, long))
        }
    }
}

/// The target that the first `n` displacements of `moves` give the piece on
/// `sq`: the first displacement whose source is `sq`.
pub open spec fn first_target(moves: Seq<(Square, Square)>, sq: Square, n: nat) -> Option<Square>
    decreases n,
{
    if n == 0 || n > moves.len() {
        None
    } else {
        match first_target(moves, sq, (n - 1) as nat) {
            Some(t) => Some(t),
            None => if moves[n - 1].0 == sq {
                Some(moves[n - 1].1)
            } else {
                None
            },
        }
    }
}

/// Where a piece standing on `sq` ends after `moves`.
pub open spec fn final_square(moves: Seq<(Square, Square)>, sq: Square) -> Square {
    match first_target(moves, sq, moves.len()) {
        Some(t) => t,
        None => sq,
    }
}

/// The first leg's displacements carried through the second leg, in order;
/// pieces that end where they started are dropped.
pub open spec fn compose_first(leg1: Seq<(Square, Square)>, leg2: Seq<(Square, Square)>, n: nat) -> Seq<
    (Square, Square),
>
    decreases n,
{
    if n == 0 || n > leg1.len() {
        Seq::empty()
    } else {
        let prev = compose_first(leg1, leg2, (n - 1) as nat);
        let original = leg1[n - 1].0;
        let end = final_square(leg2, leg1[n - 1].1);
        if original != end {
            prev.push((original, end))
        } else {
            prev
        }
    }
}

/// Whether some piece moved by the first leg stands on `sq` after it.
pub open spec fn moved_onto(leg1: Seq<(Square, Square)>, sq: Square) -> bool {
    exists|j: int| 0 <= j < leg1.len() && #[trigger] leg1[j].1 == sq
}

/// The second leg's displacements of pieces the first leg did not move.
pub open spec fn compose_second(leg1: Seq<(Square, Square)>, leg2: Seq<(Square, Square)>, n: nat) -> Seq<
    (Square, Square),
>
    decreases n,
{
    if n == 0 || n > leg2.len() {
        Seq::empty()
    } else {
        let prev = compose_second(leg1, leg2, (n - 1) as nat);
        if !moved_onto(leg1, leg2[n - 1].0) {
            prev.push(leg2[n - 1])
        } else {
            prev
        }
    }
}

/// The square in the corner of a knight route, after its first leg.
pub open spec fn knight_corner(from: Square, first: Leg) -> Square {
    spec_make_square(
        spec_rank_of(from) + steps(first.2, first.0),
        spec_file_of(from) + steps(first.2, first.1),
    )
}

/// A knight move along one of its two L-shaped routes: a push along the
/// first leg that captures nothing, then a push along the second leg on the
/// resulting board; pieces keep their identity across the legs, so each
/// displacement maps an original square to the piece's final square.
pub open spec fn spec_resolve_knight_push(board: Seq<Piece>, from: Square, to: Square, long_first: bool) -> Option<
    PlanSpec,
> {
    if from >= 64 || to >= 64 {
        None
    } else {
        match knight_route(from, to, long_first) {
            None => None,
            Some((first, second)) => {
                let mid = knight_corner(from, first);
                match spec_resolve_push(board, from, mid, first.0, first.1) {
                    None => None,
                    Some(leg1) => if leg1.1 is Some {
                        None
                    } else {
                        match spec_resolve_push(apply_plan(board, leg1), mid, to, second.0, second.1) {
                            None => None,
                            Some(leg2) => Some(
                                (
                                    compose_first(leg1.0, leg2.0, leg1.0.len()) + compose_second(
                                        leg1.0,
                                        leg2.0,
                                        leg2.0.len(),
                                    ),
                                    leg2.1,
                                ),
                            ),
                        }
                    },
                }
            },
        }
    }
}

/// Compose against the unchanged first plan, not already-updated entries.
fn compose_legs(leg1: &PushPlan, leg2: &PushPlan) -> (plan: PushPlan)
    requires
        plan_on_board(leg1@),
        plan_on_board(leg2@),
        leg1@.0.len() <= 8,
        leg2@.0.len() <= 8,
    ensures
        plan@ == (
            compose_first(leg1@.0, leg2@.0, leg1@.0.len()) + compose_second(
                leg1@.0,
                leg2@.0,
                leg2@.0.len(),
            ),
            leg2@.1,
        ),
        plan_on_board(plan@),
{
    let ghost l1 = leg1@.0;
    let ghost l2 = leg2@.0;
    let mut displacements = route_new();
    let n1 = leg1.len();
    let n2 = leg2.len();
    let mut i: usize = 0;
    while i < n1
        invariant
            n1 == l1.len(),
            n2 == l2.len(),
            l1 == leg1@.0,
            l2 == leg2@.0,
            n1 <= 8,
            n2 <= 8,
            i <= n1,
            plan_on_board(leg1@),
            plan_on_board(leg2@),
            route_items(displacements) == compose_first(l1, l2, i as nat),
            route_items(displacements).len() <= i,
            forall|k: int|
                0 <= k < route_items(displacements).len() ==> (#[trigger] route_items(displacements)[k]).0
                    < 64 && route_items(displacements)[k].1 < 64,
        decreases n1 - i,
    {
        let (original, current) = leg1.displacement(i);
        let mut final_sq = current;
        let mut j: usize = 0;
        while j < n2
            invariant_except_break
                first_target(l2, current, j as nat) is None,
                final_sq == current,
            invariant
                n2 == l2.len(),
                l2 == leg2@.0,
                j <= n2,
                plan_on_board(leg2@),
                current < 64,
            ensures
                final_sq == final_square(l2, current),
                final_sq < 64,
            decreases n2 - j,
        {
            let (from, to) = leg2.displacement(j);
            if from == current {
                final_sq = to;
                proof {
                    assert(first_target(l2, current, (j + 1) as nat) == Some(to));
                    assert forall|m: nat| j + 1 <= m <= n2 implies first_target(l2, current, m) == Some(to) by {
                        lemma_first_target_stable(l2, current, (j + 1) as nat, m);
                    }
                }
                break ;
            }
            j += 1;
        }
        if original != final_sq {
            route_push(&mut displacements, (original, final_sq));
        }
        i += 1;
    }
    let mut j: usize = 0;
    while j < n2
        invariant
            n1 == l1.len(),
            n2 == l2.len(),
            l1 == leg1@.0,
            l2 == leg2@.0,
            n1 <= 8,
            n2 <= 8,
            j <= n2,
            plan_on_board(leg1@),
            plan_on_board(leg2@),
            route_items(displacements) == compose_first(l1, l2, n1 as nat) + compose_second(l1, l2, j as nat),
            route_items(displacements).len() <= n1 + j,
            forall|k: int|
                0 <= k < route_items(displacements).len() ==> (#[trigger] route_items(displacements)[k]).0
                    < 64 && route_items(displacements)[k].1 < 64,
        decreases n2 - j,
    {
        let (from, to) = leg2.displacement(j);
        let mut moved = false;
        let mut i: usize = 0;
        while i < n1
            invariant
                n1 == l1.len(),
                l1 == leg1@.0,
                i <= n1,
                !moved ==> forall|k: int| 0 <= k < i ==> #[trigger] l1[k].1 != from,
                moved ==> moved_onto(l1, from),
            decreases n1 - i,
        {
            let (_, current) = leg1.displacement(i);
            if current == from {
                moved = true;
            }
            i += 1;
        }
        let ghost before = route_items(displacements);
        assert(from < 64 && to < 64);
        if !moved {
            route_push(&mut displacements, (from, to));
        }
        proof {
            assert(route_items(displacements) =~= compose_first(l1, l2, n1 as nat) + compose_second(l1, l2, (j + 1) as nat));
        }
        j += 1;
    }
    PushPlan { displacements, captured: leg2.captured }
}

proof fn lemma_first_target_stable(moves: Seq<(Square, Square)>, sq: Square, a: nat, b: nat)
    requires
        a <= b <= moves.len(),
        first_target(moves, sq, a) is Some,
    ensures
        first_target(moves, sq, b) == first_target(moves, sq, a),
    decreases b - a,
{
    if a < b {
        lemma_first_target_stable(moves, sq, a, (b - 1) as nat);
    }
}

fn sign_of(x: i32) -> (s: i32)
    ensures
        s == sign(x as int),
{
    if x > 0 {
        1
    } else if x < 0 {
        -1
    } else {
        0
    }
}

/// A resolved straight push starts by moving the mover to the destination.
pub proof fn lemma_push_starts_with_mover(board: Seq<Piece>, from: Square, to: Square, dr: int, dc: int)
    requires
        spec_resolve_push(board, from, to, dr, dc) is Some,
    ensures
        spec_resolve_push(board, from, to, dr, dc).unwrap().0.len() >= 1,
        spec_resolve_push(board, from, to, dr, dc).unwrap().0[0] == (from, to),
{
}

proof fn lemma_compose_first_len(leg1: Seq<(Square, Square)>, leg2: Seq<(Square, Square)>, n: nat)
    requires
        n <= leg1.len(),
    ensures
        compose_first(leg1, leg2, n).len() <= n,
    decreases n,
{
    if n > 0 {
        lemma_compose_first_len(leg1, leg2, (n - 1) as nat);
    }
}

proof fn lemma_compose_second_len(leg1: Seq<(Square, Square)>, leg2: Seq<(Square, Square)>, n: nat)
    requires
        1 <= n <= leg2.len(),
        moved_onto(leg1, leg2[0].0),
    ensures
        compose_second(leg1, leg2, n).len() <= n - 1,
    decreases n,
{
    if n > 1 {
        lemma_compose_second_len(leg1, leg2, (n - 1) as nat);
    } else {
        assert(compose_second(leg1, leg2, 0) =~= Seq::<(Square, Square)>::empty());
    }
}

/// Resolve either L-shaped knight path, preserving piece identity across legs.
/// Captures are allowed only on the final leg.
pub fn resolve_knight_push(pos: &Position, from: Square, to: Square, long_first: bool) -> (r: Option<
    PushPlan,
>)
    ensures
        match r {
            None => spec_resolve_knight_push(pos.board@, from, to, long_first) is None,
            Some(p) => spec_resolve_knight_push(pos.board@, from, to, long_first) == Some(p@)
                && plan_on_board(p@) && p@.0.len() <= 15,
        },
{
    if from >= 64 || to >= 64 {
        return None;
    }
    let dr = rank_of(to) - rank_of(from);
    let dc = file_of(to) - file_of(from);
    let adr = if dr < 0 { -dr } else { dr };
    let adc = if dc < 0 { -dc } else { dc };
    if !((adr == 1 && adc == 2) || (adr == 2 && adc == 1)) {
        return None;
    }
    let (long, short) = if adr == 2 {
        ((sign_of(dr), 0i32, 2i32), (0i32, sign_of(dc), 1i32))
    } else {
        ((0i32, sign_of(dc), 2i32), (sign_of(dr), 0i32, 1i32))
    };
    let (first, second) = if long_first {
        (long, short)
    } else {
        (short, long)
    };
    proof {
        assert(first.0 * first.2 == steps(first.2 as int, first.0 as int)) by (nonlinear_arith)
            requires
                -1 <= first.0 <= 1,
                1 <= first.2 <= 2,
        ;
        assert(first.1 * first.2 == steps(first.2 as int, first.1 as int)) by (nonlinear_arith)
            requires
                -1 <= first.1 <= 1,
                1 <= first.2 <= 2,
        ;
    }
    let mid = make_square(rank_of(from) + first.0 * first.2, file_of(from) + first.1 * first.2);
    let ghost route = knight_route(from, to, long_first);
    assert(route == Some((
        (first.0 as int, first.1 as int, first.2 as int),
        (second.0 as int, second.1 as int, second.2 as int),
    )));
    let leg1 = match resolve_push(pos, from, mid, first.0, first.1) {
        Some(plan) => plan,
        None => {
            return None;
        },
    };
    if leg1.captured().is_some() {
        return None;
    }
    let mut intermediate = Position::empty();
    intermediate.board = pos.board;
    leg1.apply(&mut intermediate.board);
    let leg2 = match resolve_push(&intermediate, mid, to, second.0, second.1) {
        Some(plan) => plan,
        None => {
            return None;
        },
    };
    proof {
        lemma_push_starts_with_mover(pos.board@, from, mid, first.0 as int, first.1 as int);
        lemma_push_starts_with_mover(intermediate.board@, mid, to, second.0 as int, second.1 as int);
        assert(leg1@.0[0].1 == leg2@.0[0].0);
        lemma_compose_first_len(leg1@.0, leg2@.0, leg1@.0.len());
        lemma_compose_second_len(leg1@.0, leg2@.0, leg2@.0.len());
    }
    Some(compose_legs(&leg1, &leg2))
}

} // verus!
