use vstd::prelude::*;
use vstd::arithmetic::div_mod::lemma_fundamental_div_mod_converse;
use crate::cell::{
    Cell, CellIndex, Position, SnakeId, spec_with_kind, spec_removed, spec_set_food,
    spec_set_hazard, spec_clear_food, spec_clear_hazard, spec_cell_index, spec_position,
    lemma_with_kind, lemma_removed, lemma_flag_ops, lemma_cell_index_round_trip,
    lemma_move_exhaustive, KIND_EMPTY, KIND_BODY, KIND_DOUBLE,
    KIND_TRIPLE, KIND_HEAD, Move,
};
use crate::game::{
    BattleSnake, Game, SnakeIDMap, spec_lookup, spec_count, spec_uniq, lemma_uniq_props,
    get_snake_id, uniq_positions, count_position,
};

verus! {

broadcast use lemma_with_kind, lemma_removed, lemma_flag_ops;

/// A compact board: a flat array of `BOARD_SIZE` packed cells plus parallel
/// per-agent arrays of length `MAX_SNAKES`, sized at compile time so a value
/// can be copied and branched on cheaply during search.
#[verifier::ext_equal]
#[derive(Debug, Clone, PartialEq, Eq)]
pub struct CellBoard<const BOARD_SIZE: usize, const MAX_SNAKES: usize> {
    pub hazard_damage: u8,
    pub cells: Vec<Cell>,
    pub healths: Vec<u8>,
    pub heads: Vec<CellIndex>,
    pub lengths: Vec<u16>,
    pub actual_width: u8,
    pub actual_height: u8,
}

/// A construction-time rejection of an external snapshot.
#[derive(Debug, Clone, Copy, PartialEq, Eq, Structural)]
pub enum ConvertError {
    /// The ruleset is the wrapped variant, whose edge semantics this
    /// representation does not model.
    WrappedGamesNotSupported,
    /// A dimension is zero or too large for a packed cell index.
    UnsupportedDimensions,
    /// `width * height` exceeds the compile-time cell capacity.
    GameTooBigForBoard,
    /// More agent records than the compile-time agent capacity.
    TooManySnakes,
    /// A body stacks three segments on one square yet covers more than one
    /// square, or stacks more than three segments on one square: a corrupt
    /// snapshot (a spawn stack is exactly three coincident segments).
    BadBodyStack,
    /// A live agent with no body coordinates at all.
    EmptySnakeBody,
    /// A live agent's body leaves the grid.
    BodyOutOfBounds,
    /// A live agent's body has more segments than a length counter can hold.
    BodyTooLong,
    /// A live agent's head square holds exactly two segments.
    DoubledHead,
    /// Two live agents share a square.
    OverlappingSnakes,
}

/// The all-zero cell every square starts from.
pub open spec fn zero_cell() -> Cell {
    Cell { flags: 0, id: 0, idx: 0 }
}

pub open spec fn spec_live(snakes: Seq<BattleSnake>, k: int) -> bool {
    snakes[k].health > 0
}

/// The dense id the map assigns to snapshot agent `k`.
pub open spec fn spec_mapped_id(snakes: Seq<BattleSnake>, m: Seq<(String, SnakeId)>, k: int) -> int {
    spec_lookup(m, snakes[k].id@).unwrap().0 as int
}

pub open spec fn in_grid(p: Position, w: u8, h: u8) -> bool {
    0 <= p.x < w && 0 <= p.y < h
}

/// The packed cell written for live agent `k`'s `u`-th distinct body square:
/// three coincident segments make a triple stack, the first distinct square
/// is the head (linked to the tail's square), two coincident segments make a
/// double stack, anything else a plain body piece; non-head pieces link to
/// the previous distinct square, one step toward the head.
pub open spec fn spec_content(
    snakes: Seq<BattleSnake>,
    m: Seq<(String, SnakeId)>,
    w: u8,
    k: int,
    u: int,
) -> Cell {
    let b = snakes[k].body@;
    let q = spec_uniq(b);
    let p = q[u];
    let cnt = spec_count(b, p);
    let id = spec_mapped_id(snakes, m, k) as u8;
    if cnt == 3 {
        spec_with_kind(zero_cell(), KIND_TRIPLE, id, 0)
    } else if u == 0 {
        spec_with_kind(zero_cell(), KIND_HEAD, id, spec_cell_index(b.last(), w) as u16)
    } else if cnt == 2 {
        spec_with_kind(zero_cell(), KIND_DOUBLE, id, spec_cell_index(q[u - 1], w) as u16)
    } else {
        spec_with_kind(zero_cell(), KIND_BODY, id, spec_cell_index(q[u - 1], w) as u16)
    }
}

/// Whether live agent `k` has a distinct body square with linear index `c`.
pub open spec fn spec_covers(snakes: Seq<BattleSnake>, w: u8, k: int, c: int) -> bool {
    exists|u: int|
        0 <= u < spec_uniq(snakes[k].body@).len() && spec_cell_index(
            spec_uniq(snakes[k].body@)[u],
            w,
        ) == c
}

pub open spec fn spec_cover_u(snakes: Seq<BattleSnake>, w: u8, k: int, c: int) -> int {
    choose|u: int|
        0 <= u < spec_uniq(snakes[k].body@).len() && spec_cell_index(
            spec_uniq(snakes[k].body@)[u],
            w,
        ) == c
}

/// The occupancy square `c` holds after the first `j` agents are written:
/// the last live writer wins.
pub open spec fn spec_occ(
    snakes: Seq<BattleSnake>,
    m: Seq<(String, SnakeId)>,
    w: u8,
    j: int,
    c: int,
) -> Cell
    decreases j,
{
    if j <= 0 {
        zero_cell()
    } else if spec_live(snakes, j - 1) && spec_covers(snakes, w, j - 1, c) {
        spec_content(snakes, m, w, j - 1, spec_cover_u(snakes, w, j - 1, c))
    } else {
        spec_occ(snakes, m, w, j - 1, c)
    }
}

/// The last of the first `j` agents that is live and filed under dense id
/// `s`: the one whose scalars slot `s` holds.
pub open spec fn spec_owner(
    snakes: Seq<BattleSnake>,
    m: Seq<(String, SnakeId)>,
    j: int,
    s: int,
) -> Option<int>
    decreases j,
{
    if j <= 0 {
        None
    } else if spec_live(snakes, j - 1) && spec_mapped_id(snakes, m, j - 1) == s {
        Some(j - 1)
    } else {
        spec_owner(snakes, m, j - 1, s)
    }
}

/// A square's final value: its occupancy write, then the snapshot's hazard
/// and food stamps if the square lies on the actual grid.
pub open spec fn spec_final_cell(g: Game, m: Seq<(String, SnakeId)>, c: int) -> Cell {
    let w = g.width as u8;
    let o = spec_occ(g.snakes@, m, w, g.snakes@.len() as int, c);
    if c < g.width * g.height {
        let pos = spec_position(c as u16, w);
        let o2 = if g.hazards@.contains(pos) {
            spec_set_hazard(o)
        } else {
            o
        };
        if g.food@.contains(pos) {
            spec_set_food(o2)
        } else {
            o2
        }
    } else {
        o
    }
}

/// Rejection conditions, in the order they are checked.
pub open spec fn cond_wrapped(g: Game) -> bool {
    g.ruleset_name@ == "wrapped"@
}

pub open spec fn cond_dims(g: Game) -> bool {
    g.width == 0 || g.height == 0 || g.width > 255 || g.height > 255
}

pub open spec fn cond_size(g: Game, board_size: int) -> bool {
    g.width * g.height > board_size
}

pub open spec fn cond_count(g: Game, max_snakes: int) -> bool {
    g.snakes@.len() > max_snakes
}

pub open spec fn spec_bad_stack(b: Seq<Position>) -> bool {
    ||| (exists|u: int|
        0 <= u < spec_uniq(b).len() && spec_count(b, #[trigger] spec_uniq(b)[u]) == 3)
        && spec_uniq(b).len() != 1
    ||| exists|u: int|
        0 <= u < spec_uniq(b).len() && spec_count(b, #[trigger] spec_uniq(b)[u]) > 3
}

pub open spec fn cond_stack(g: Game) -> bool {
    exists|k: int| 0 <= k < g.snakes@.len() && spec_bad_stack(#[trigger] g.snakes@[k].body@)
}

pub open spec fn cond_empty(g: Game) -> bool {
    exists|k: int|
        0 <= k < g.snakes@.len() && spec_live(g.snakes@, k) && (#[trigger] g.snakes@[k].body@).len()
            == 0
}

pub open spec fn cond_oob(g: Game) -> bool {
    exists|k: int, t: int|
        0 <= k < g.snakes@.len() && spec_live(g.snakes@, k) && 0 <= t < g.snakes@[k].body@.len()
            && !in_grid(#[trigger] g.snakes@[k].body@[t], g.width as u8, g.height as u8)
}

pub open spec fn cond_long(g: Game) -> bool {
    exists|k: int|
        0 <= k < g.snakes@.len() && spec_live(g.snakes@, k) && (#[trigger] g.snakes@[k].body@).len()
            > u16::MAX
}

pub open spec fn cond_dhead(g: Game) -> bool {
    exists|k: int|
        0 <= k < g.snakes@.len() && spec_live(g.snakes@, k) && (#[trigger] g.snakes@[k].body@).len()
            > 0 && spec_count(g.snakes@[k].body@, g.snakes@[k].body@[0]) == 2
}

pub open spec fn cond_overlap(g: Game) -> bool {
    exists|k1: int, k2: int, t1: int, t2: int|
        0 <= k1 < g.snakes@.len() && 0 <= k2 < g.snakes@.len() && k1 != k2 && spec_live(g.snakes@, k1)
            && spec_live(g.snakes@, k2) && 0 <= t1 < g.snakes@[k1].body@.len() && 0 <= t2
            < g.snakes@[k2].body@.len() && (#[trigger] g.snakes@[k1].body@[t1]) == (
        #[trigger] g.snakes@[k2].body@[t2])
}

/// Any rejection at all.
pub open spec fn cond_any(g: Game, board_size: int, max_snakes: int) -> bool {
    cond_wrapped(g) || cond_dims(g) || cond_size(g, board_size) || cond_count(g, max_snakes)
        || cond_stack(g) || cond_empty(g) || cond_oob(g) || cond_long(g) || cond_dhead(g)
        || cond_overlap(g)
}

/// The error a snapshot is rejected with: the first condition that holds.
pub open spec fn spec_error(g: Game, board_size: int, max_snakes: int) -> ConvertError {
    if cond_wrapped(g) {
        ConvertError::WrappedGamesNotSupported
    } else if cond_dims(g) {
        ConvertError::UnsupportedDimensions
    } else if cond_size(g, board_size) {
        ConvertError::GameTooBigForBoard
    } else if cond_count(g, max_snakes) {
        ConvertError::TooManySnakes
    } else if cond_stack(g) {
        ConvertError::BadBodyStack
    } else if cond_empty(g) {
        ConvertError::EmptySnakeBody
    } else if cond_oob(g) {
        ConvertError::BodyOutOfBounds
    } else if cond_long(g) {
        ConvertError::BodyTooLong
    } else if cond_dhead(g) {
        ConvertError::DoubledHead
    } else {
        ConvertError::OverlappingSnakes
    }
}

/// Every caller obligation `convert_from_game` places on the id map: each
/// live agent's native id is mapped, to a dense id below the agent capacity.
pub open spec fn spec_map_ok(g: Game, m: Seq<(String, SnakeId)>, max_snakes: int) -> bool {
    forall|k: int|
        0 <= k < g.snakes@.len() && spec_live(g.snakes@, k) ==> (#[trigger] spec_lookup(
            m,
            g.snakes@[k].id@,
        )).is_some() && spec_lookup(m, g.snakes@[k].id@).unwrap().0 < max_snakes
}

impl<const BOARD_SIZE: usize, const MAX_SNAKES: usize> CellBoard<BOARD_SIZE, MAX_SNAKES> {
    /// Structural well-formedness: array lengths match the capacities, the
    /// grid fits, every occupied square names a live agent below the agent
    /// capacity and links inside the grid, and every live agent's head
    /// square is a head (or spawn triple stack) it owns.
    pub open spec fn wf(&self) -> bool {
        &&& self.cells@.len() == BOARD_SIZE
        &&& self.healths@.len() == MAX_SNAKES
        &&& self.heads@.len() == MAX_SNAKES
        &&& self.lengths@.len() == MAX_SNAKES
        &&& 1 <= self.actual_width
        &&& 1 <= self.actual_height
        &&& self.actual_width * self.actual_height <= BOARD_SIZE
        &&& forall|c: int|
            0 <= c < BOARD_SIZE && !(#[trigger] self.cells@[c]).s_empty() ==> (self.cells@[c].id
                as int) < MAX_SNAKES as int && self.healths@[self.cells@[c].id as int] > 0 && (
            self.cells@[c].idx as int) < self.actual_width * self.actual_height
        &&& forall|i: int|
            0 <= i < MAX_SNAKES as int && (#[trigger] self.healths@[i]) > 0 ==> (self.heads@[i].0
                as int) < self.actual_width * self.actual_height && (self.cells@[self.heads@[i].0
                as int].s_head() || self.cells@[self.heads@[i].0 as int].s_kind() == KIND_TRIPLE)
                && self.cells@[self.heads@[i].0 as int].id as int == i
    }

    /// The full construction contract: no rejection holds, and every field
    /// of the board is pinned to the snapshot.
    pub open spec fn spec_converted(g: Game, m: Seq<(String, SnakeId)>, b: Self) -> bool {
        &&& b.actual_width == g.width as u8
        &&& b.actual_height == g.height as u8
        &&& b.hazard_damage == (match g.hazard_damage_per_turn {
            Some(d) => d,
            None => 15u8,
        })
        &&& b.cells@.len() == BOARD_SIZE
        &&& b.healths@.len() == MAX_SNAKES
        &&& b.heads@.len() == MAX_SNAKES
        &&& b.lengths@.len() == MAX_SNAKES
        &&& forall|c: int| 0 <= c < BOARD_SIZE ==> (#[trigger] b.cells@[c]) == spec_final_cell(g, m, c)
        &&& forall|s: int|
            0 <= s < MAX_SNAKES as int ==> (#[trigger] b.healths@[s]) == (match spec_owner(
                g.snakes@,
                m,
                g.snakes@.len() as int,
                s,
            ) {
                Some(k) => g.snakes@[k].health,
                None => 0u8,
            })
        &&& forall|s: int|
            0 <= s < MAX_SNAKES as int ==> (#[trigger] b.lengths@[s]) as int == (match spec_owner(
                g.snakes@,
                m,
                g.snakes@.len() as int,
                s,
            ) {
                Some(k) => g.snakes@[k].body@.len() as int,
                None => 0,
            })
        &&& forall|s: int|
            0 <= s < MAX_SNAKES as int ==> (#[trigger] b.heads@[s]).0 as int == (match spec_owner(
                g.snakes@,
                m,
                g.snakes@.len() as int,
                s,
            ) {
                Some(k) => spec_cell_index(g.snakes@[k].body@[0], g.width as u8),
                None => 0,
            })
    }
}

/// Distinct in-grid coordinates have distinct linear indices, and an in-grid
/// coordinate's linear index lies inside the grid's index range.
pub proof fn lemma_cidx_inj(p1: Position, p2: Position, w: u8, h: u8)
    requires
        w > 0,
        in_grid(p1, w, h),
        in_grid(p2, w, h),
    ensures
        0 <= spec_cell_index(p1, w) < w * h,
        p1 != p2 ==> spec_cell_index(p1, w) != spec_cell_index(p2, w),
        spec_position(spec_cell_index(p1, w) as u16, w) == p1,
{
    let i1 = spec_cell_index(p1, w);
    assert(0 <= i1 < w * h && i1 <= 65024) by (nonlinear_arith)
        requires
            i1 == p1.y * w + p1.x,
            0 <= p1.x < w,
            0 <= p1.y < h,
            w > 0,
            w <= 255,
            h <= 255,
    ;
    lemma_fundamental_div_mod_converse(i1 as int, w as int, p1.y as int, p1.x as int);
    assert((i1 as u16) as int == i1);
    let i2 = spec_cell_index(p2, w);
    assert(0 <= i2 < w * h && i2 <= 65024) by (nonlinear_arith)
        requires
            i2 == p2.y * w + p2.x,
            0 <= p2.x < w,
            0 <= p2.y < h,
            w > 0,
            w <= 255,
            h <= 255,
    ;
    lemma_fundamental_div_mod_converse(i2 as int, w as int, p2.y as int, p2.x as int);
}

/// A non-empty body's first distinct square is its head square.
pub proof fn lemma_uniq_first(b: Seq<Position>)
    requires
        b.len() > 0,
    ensures
        spec_uniq(b).len() > 0,
        spec_uniq(b)[0] == b[0],
    decreases b.len(),
{
    if b.len() == 1 {
        assert(b.drop_last().len() == 0);
        assert(spec_uniq(b.drop_last()) =~= Seq::<Position>::empty());
        assert(!b.drop_last().contains(b.last()));
        assert(spec_uniq(b) == spec_uniq(b.drop_last()).push(b.last()));
    } else {
        lemma_uniq_first(b.drop_last());
        assert(b.drop_last()[0] == b[0]);
    }
}

/// Checks whether a coordinate list contains a coordinate.
pub fn contains_position(v: &Vec<Position>, p: Position) -> (r: bool)
    ensures
        r == v@.contains(p),
{
    let n = v.len();
    for j in 0..n
        invariant
            n == v@.len(),
            forall|t: int| 0 <= t < j ==> v@[t] != p,
    {
        if v[j] == p {
            return true;
        }
    }
    false
}

} // verus!
verus! {

/// Bodies of distinct live agents share no square.
pub open spec fn spec_snakes_disjoint(snakes: Seq<BattleSnake>) -> bool {
    forall|k1: int, k2: int, t1: int, t2: int|
        0 <= k1 < snakes.len() && 0 <= k2 < snakes.len() && k1 != k2 && spec_live(snakes, k1)
            && spec_live(snakes, k2) && 0 <= t1 < snakes[k1].body@.len() && 0 <= t2
            < snakes[k2].body@.len() ==> (#[trigger] snakes[k1].body@[t1]) != (
        #[trigger] snakes[k2].body@[t2])
}

/// Every live agent's body is non-empty and entirely on the grid.
pub open spec fn spec_bodies_on_grid(snakes: Seq<BattleSnake>, w: u8, h: u8) -> bool {
    forall|k: int|
        0 <= k < snakes.len() && spec_live(snakes, k) ==> (#[trigger] snakes[k].body@).len() > 0
            && forall|t: int|
            0 <= t < snakes[k].body@.len() ==> in_grid(#[trigger] snakes[k].body@[t], w, h)
}

pub open spec fn spec_ids_small(snakes: Seq<BattleSnake>, m: Seq<(String, SnakeId)>, ms: int) -> bool {
    forall|k: int|
        0 <= k < snakes.len() && spec_live(snakes, k) ==> (#[trigger] spec_lookup(
            m,
            snakes[k].id@,
        )).is_some() && spec_lookup(m, snakes[k].id@).unwrap().0 < ms
}

pub proof fn lemma_zero_cell()
    ensures
        zero_cell().s_empty(),
        !zero_cell().s_food(),
        !zero_cell().s_hazard(),
{
    assert(0u8 & 0x07 == 0 && 0u8 & 0x08 == 0 && 0u8 & 0x10 == 0) by (bit_vector);
}

/// Whatever slot an owner lookup returns is a live agent filed under that id.
pub proof fn lemma_owner_props(
    snakes: Seq<BattleSnake>,
    m: Seq<(String, SnakeId)>,
    j: int,
    s: int,
)
    requires
        j <= snakes.len(),
    ensures
        spec_owner(snakes, m, j, s).is_some() ==> {
            let k = spec_owner(snakes, m, j, s).unwrap();
            0 <= k < j && spec_live(snakes, k) && spec_mapped_id(snakes, m, k) == s
        },
    decreases j,
{
    if j > 0 {
        lemma_owner_props(snakes, m, j - 1, s);
    }
}

/// A live agent guarantees its dense id has an owner in any longer prefix.
pub proof fn lemma_owner_some(
    snakes: Seq<BattleSnake>,
    m: Seq<(String, SnakeId)>,
    k: int,
    j: int,
)
    requires
        0 <= k < j <= snakes.len(),
        spec_live(snakes, k),
    ensures
        spec_owner(snakes, m, j, spec_mapped_id(snakes, m, k)).is_some(),
    decreases j,
{
    let s = spec_mapped_id(snakes, m, k);
    if j - 1 > k {
        if !(spec_live(snakes, j - 1) && spec_mapped_id(snakes, m, j - 1) == s) {
            lemma_owner_some(snakes, m, k, j - 1);
        }
    }
}

/// Field facts about an occupancy write, under the validated conditions.
pub proof fn lemma_content_props(
    snakes: Seq<BattleSnake>,
    m: Seq<(String, SnakeId)>,
    w: u8,
    h: u8,
    ms: int,
    k: int,
    u: int,
)
    requires
        w > 0,
        h > 0,
        0 <= k < snakes.len(),
        spec_live(snakes, k),
        spec_bodies_on_grid(snakes, w, h),
        spec_ids_small(snakes, m, ms),
        0 <= u < spec_uniq(snakes[k].body@).len(),
    ensures
        ({
            let cc = spec_content(snakes, m, w, k, u);
            &&& !cc.s_empty()
            &&& !cc.s_food()
            &&& !cc.s_hazard()
            &&& cc.id as int == spec_mapped_id(snakes, m, k)
            &&& (cc.id as int) < ms
            &&& (cc.idx as int) < w * h
            &&& (u == 0 ==> cc.s_kind() == KIND_HEAD || cc.s_kind() == KIND_TRIPLE)
        }),
{
    lemma_zero_cell();
    let b = snakes[k].body@;
    let q = spec_uniq(b);
    lemma_uniq_props(b);
    assert(b.contains(q[u]));
    let tw = choose|t: int| 0 <= t < b.len() && (#[trigger] b[t]) == q[u];
    assert(in_grid(b[tw], w, h));
    assert(in_grid(q[u], w, h));
    lemma_cidx_inj(q[u], q[u], w, h);
    assert(b.contains(b.last()));
    let tl = choose|t: int| 0 <= t < b.len() && (#[trigger] b[t]) == b.last();
    assert(in_grid(b.last(), w, h));
    lemma_cidx_inj(b.last(), b.last(), w, h);
    if u > 0 {
        assert(b.contains(q[u - 1]));
        let t2 = choose|t: int| 0 <= t < b.len() && (#[trigger] b[t]) == q[u - 1];
        assert(in_grid(q[u - 1], w, h));
        lemma_cidx_inj(q[u - 1], q[u - 1], w, h);
    }
    let sid = spec_lookup(m, snakes[k].id@).unwrap();
    assert(sid.0 < ms);
    assert((sid.0 as int) as u8 == sid.0);
    assert(1 <= w * h <= 65025) by (nonlinear_arith)
        requires
            0 < w <= 255,
            0 < h <= 255,
    ;
}

/// On an overlap-free board each covered square has exactly one live
/// coverer, so the fold over agents resolves to that agent's write.
pub proof fn lemma_occ_unique(
    snakes: Seq<BattleSnake>,
    m: Seq<(String, SnakeId)>,
    w: u8,
    h: u8,
    j: int,
    k: int,
    c: int,
)
    requires
        w > 0,
        h > 0,
        spec_snakes_disjoint(snakes),
        spec_bodies_on_grid(snakes, w, h),
        0 <= k < j <= snakes.len(),
        spec_live(snakes, k),
        spec_covers(snakes, w, k, c),
    ensures
        spec_occ(snakes, m, w, j, c) == spec_content(snakes, m, w, k, spec_cover_u(snakes, w, k, c)),
    decreases j,
{
    lemma_uniq_props(snakes[k].body@);
    if j - 1 == k {
        assert(spec_occ(snakes, m, w, j, c) == spec_content(
            snakes,
            m,
            w,
            k,
            spec_cover_u(snakes, w, k, c),
        ));
    } else {
        if spec_live(snakes, j - 1) && spec_covers(snakes, w, j - 1, c) {
            let u1 = spec_cover_u(snakes, w, k, c);
            let u2 = spec_cover_u(snakes, w, j - 1, c);
            let qk = spec_uniq(snakes[k].body@);
            let qj = spec_uniq(snakes[j - 1].body@);
            lemma_uniq_props(snakes[j - 1].body@);
            assert(snakes[k].body@.contains(qk[u1]));
            assert(snakes[j - 1].body@.contains(qj[u2]));
            let t1 = choose|t: int|
                0 <= t < snakes[k].body@.len() && (#[trigger] snakes[k].body@[t]) == qk[u1];
            let t2 = choose|t: int|
                0 <= t < snakes[j - 1].body@.len() && (#[trigger] snakes[j - 1].body@[t]) == qj[u2];
            lemma_cidx_inj(qk[u1], qj[u2], w, h);
            assert(qk[u1] == qj[u2]);
            assert(snakes[k].body@[t1] == snakes[j - 1].body@[t2]);
            assert(false);
        }
        lemma_occ_unique(snakes, m, w, h, j - 1, k, c);
    }
}

/// Any non-empty occupancy fold value is some live agent's write.
pub proof fn lemma_occ_struct(
    snakes: Seq<BattleSnake>,
    m: Seq<(String, SnakeId)>,
    w: u8,
    j: int,
    c: int,
)
    requires
        0 <= j <= snakes.len(),
    ensures
        spec_occ(snakes, m, w, j, c) == zero_cell() || exists|k: int|
            0 <= k < j && spec_live(snakes, k) && spec_covers(snakes, w, k, c) && spec_occ(
                snakes,
                m,
                w,
                j,
                c,
            ) == spec_content(snakes, m, w, k, spec_cover_u(snakes, w, k, c)),
    decreases j,
{
    if j > 0 {
        if spec_live(snakes, j - 1) && spec_covers(snakes, w, j - 1, c) {
        } else {
            lemma_occ_struct(snakes, m, w, j - 1, c);
        }
    }
}

} // verus!
verus! {

/// Squares among an agent's first `u` distinct body squares.
pub open spec fn spec_covers_lt(snakes: Seq<BattleSnake>, w: u8, k: int, u: int, c: int) -> bool {
    exists|v: int|
        0 <= v < u && spec_cell_index(#[trigger] spec_uniq(snakes[k].body@)[v], w) == c
}

impl<const BOARD_SIZE: usize, const MAX_SNAKES: usize> CellBoard<BOARD_SIZE, MAX_SNAKES> {
    /// Builds a board from an external snapshot and an id map, validating the
    /// snapshot once so that simulation never has to: the result is either a
    /// fully invariant-satisfying board whose every field the contract pins,
    /// or the first (in checking order) of the rejection conditions.
    #[verifier::loop_isolation(false)]
    #[verifier::rlimit(100)]
    pub fn convert_from_game(game: Game, snake_ids: &SnakeIDMap) -> (r: Result<
        Self,
        ConvertError,
    >)
        requires
            spec_map_ok(game, snake_ids@, MAX_SNAKES as int),
        ensures
            r.is_err() <==> cond_any(game, BOARD_SIZE as int, MAX_SNAKES as int),
            r.is_err() ==> r == Result::<Self, ConvertError>::Err(
                spec_error(game, BOARD_SIZE as int, MAX_SNAKES as int),
            ),
            r.is_ok() ==> Self::spec_converted(game, snake_ids@, r.unwrap()) && r.unwrap().wf(),
    {
        let ghost m = snake_ids@;
        let ghost snakes = game.snakes@;
        let wrapped_name: String = "wrapped".to_owned();
        if game.ruleset_name == wrapped_name {
            return Err(ConvertError::WrappedGamesNotSupported);
        }
        if game.width == 0 || game.height == 0 || game.width > 255 || game.height > 255 {
            return Err(ConvertError::UnsupportedDimensions);
        }
        let w: u8 = game.width as u8;
        let h: u8 = game.height as u8;
        proof {
            assert(w as int == game.width as int && h as int == game.height as int);
            assert(1 <= w as int * h as int <= 65025) by (nonlinear_arith)
                requires
                    0 < w <= 255,
                    0 < h <= 255,
            ;
        }
        if (game.width as usize) * (game.height as usize) > BOARD_SIZE {
            return Err(ConvertError::GameTooBigForBoard);
        }
        let n = game.snakes.len();
        if n > MAX_SNAKES {
            return Err(ConvertError::TooManySnakes);
        }

        // A body stacking three segments on one square must be a body of one
        // single square, and no square may stack more than three.
        for k in 0..n
            invariant
                forall|kk: int| 0 <= kk < k ==> !spec_bad_stack(#[trigger] snakes[kk].body@),
        {
            let q = uniq_positions(&game.snakes[k].body);
            let mut any3 = false;
            let mut over3 = false;
            let qn = q.len();
            for u in 0..qn
                invariant
                    qn == q@.len(),
                    any3 == exists|v: int|
                        0 <= v < u && spec_count(snakes[k as int].body@, #[trigger] q@[v]) == 3,
                    over3 == exists|v: int|
                        0 <= v < u && spec_count(snakes[k as int].body@, #[trigger] q@[v]) > 3,
            {
                let c = count_position(&game.snakes[k].body, q[u]);
                if c == 3 {
                    any3 = true;
                }
                if c > 3 {
                    over3 = true;
                }
            }
            if (any3 && q.len() != 1) || over3 {
                return Err(ConvertError::BadBodyStack);
            }
        }
        assert(!cond_stack(game));

        for k in 0..n
            invariant
                forall|kk: int|
                    0 <= kk < k && spec_live(snakes, kk) ==> (#[trigger] snakes[kk].body@).len()
                        > 0,
        {
            if game.snakes[k].health > 0 && game.snakes[k].body.len() == 0 {
                return Err(ConvertError::EmptySnakeBody);
            }
        }
        assert(!cond_empty(game));

        for k in 0..n
            invariant
                forall|kk: int, t: int|
                    0 <= kk < k && spec_live(snakes, kk) && 0 <= t < snakes[kk].body@.len()
                        ==> in_grid(#[trigger] snakes[kk].body@[t], w, h),
        {
            if game.snakes[k].health > 0 {
                let bn = game.snakes[k].body.len();
                for t in 0..bn
                    invariant
                        bn == snakes[k as int].body@.len(),
                        forall|tt: int|
                            0 <= tt < t ==> in_grid(#[trigger] snakes[k as int].body@[tt], w, h),
                {
                    let p = game.snakes[k].body[t];
                    if p.x < 0 || p.x >= w as i32 || p.y < 0 || p.y >= h as i32 {
                        return Err(ConvertError::BodyOutOfBounds);
                    }
                }
            }
        }
        assert(!cond_oob(game));

        for k in 0..n
            invariant
                forall|kk: int|
                    0 <= kk < k && spec_live(snakes, kk) ==> (#[trigger] snakes[kk].body@).len()
                        <= u16::MAX,
        {
            if game.snakes[k].health > 0 && game.snakes[k].body.len() > u16::MAX as usize {
                return Err(ConvertError::BodyTooLong);
            }
        }
        assert(!cond_long(game));

        for k in 0..n
            invariant
                forall|kk: int|
                    0 <= kk < k && spec_live(snakes, kk) && snakes[kk].body@.len() > 0
                        ==> spec_count(snakes[kk].body@, snakes[kk].body@[0]) != 2,
        {
            if game.snakes[k].health > 0 {
                let head = game.snakes[k].body[0];
                let c = count_position(&game.snakes[k].body, head);
                if c == 2 {
                    return Err(ConvertError::DoubledHead);
                }
            }
        }
        assert(!cond_dhead(game));

        for k1 in 0..n
            invariant
                forall|a: int, b: int, t1: int, t2: int|
                    0 <= a < k1 && 0 <= b < n as int && a != b && spec_live(snakes, a)
                        && spec_live(snakes, b) && 0 <= t1 < snakes[a].body@.len() && 0 <= t2
                        < snakes[b].body@.len() ==> (#[trigger] snakes[a].body@[t1]) != (
                    #[trigger] snakes[b].body@[t2]),
        {
            if game.snakes[k1].health > 0 {
                for k2 in 0..n
                    invariant
                        forall|b: int, t1: int, t2: int|
                            0 <= b < k2 && k1 as int != b && spec_live(snakes, b) && 0 <= t1
                                < snakes[k1 as int].body@.len() && 0 <= t2 < snakes[b].body@.len()
                                ==> (#[trigger] snakes[k1 as int].body@[t1]) != (
                            #[trigger] snakes[b].body@[t2]),
                {
                    if k2 != k1 && game.snakes[k2].health > 0 {
                        let bn = game.snakes[k1].body.len();
                        for t in 0..bn
                            invariant
                                bn == snakes[k1 as int].body@.len(),
                                forall|t1: int, t2: int|
                                    0 <= t1 < t && 0 <= t2 < snakes[k2 as int].body@.len() ==> (
                                    #[trigger] snakes[k1 as int].body@[t1]) != (
                                    #[trigger] snakes[k2 as int].body@[t2]),
                        {
                            if contains_position(&game.snakes[k2].body, game.snakes[k1].body[t]) {
                                proof {
                                    let t2w = choose|t2: int|
                                        0 <= t2 < snakes[k2 as int].body@.len() && (
                                        #[trigger] snakes[k2 as int].body@[t2]) == snakes[
                                            k1 as int
                                        ].body@[t as int];
                                    assert(cond_overlap(game));
                                }
                                return Err(ConvertError::OverlappingSnakes);
                            }
                        }
                    }
                }
            }
        }
        proof {
            if cond_overlap(game) {
                let (k1w, k2w, t1w, t2w) = choose|k1: int, k2: int, t1: int, t2: int|
                    0 <= k1 < snakes.len() && 0 <= k2 < snakes.len() && k1 != k2 && spec_live(
                        snakes,
                        k1,
                    ) && spec_live(snakes, k2) && 0 <= t1 < snakes[k1].body@.len() && 0 <= t2
                        < snakes[k2].body@.len() && (#[trigger] snakes[k1].body@[t1]) == (
                    #[trigger] snakes[k2].body@[t2]);
                assert(false);
            }
            assert(!cond_any(game, BOARD_SIZE as int, MAX_SNAKES as int));
            assert(spec_snakes_disjoint(snakes));
            assert(spec_bodies_on_grid(snakes, w, h));
        }

        // Occupancy writes: one pass per agent over its distinct squares.
        let mut cells: Vec<Cell> = Vec::new();
        while cells.len() < BOARD_SIZE
            invariant
                cells@.len() <= BOARD_SIZE,
                forall|c: int| 0 <= c < cells@.len() ==> (#[trigger] cells@[c]) == zero_cell(),
            decreases BOARD_SIZE - cells@.len(),
        {
            cells.push(Cell::empty());
        }
        let mut healths: Vec<u8> = Vec::new();
        let mut heads: Vec<CellIndex> = Vec::new();
        let mut lengths: Vec<u16> = Vec::new();
        while healths.len() < MAX_SNAKES
            invariant
                healths@.len() <= MAX_SNAKES,
                heads@.len() == healths@.len(),
                lengths@.len() == healths@.len(),
                forall|s: int| 0 <= s < healths@.len() ==> (#[trigger] healths@[s]) == 0,
                forall|s: int| 0 <= s < heads@.len() ==> (#[trigger] heads@[s]).0 == 0,
                forall|s: int| 0 <= s < lengths@.len() ==> (#[trigger] lengths@[s]) == 0,
            decreases MAX_SNAKES - healths@.len(),
        {
            healths.push(0);
            heads.push(CellIndex(0));
            lengths.push(0);
        }

        for k in 0..n
            invariant
                cells@.len() == BOARD_SIZE,
                healths@.len() == MAX_SNAKES,
                heads@.len() == MAX_SNAKES,
                lengths@.len() == MAX_SNAKES,
                forall|c: int|
                    0 <= c < BOARD_SIZE ==> (#[trigger] cells@[c]) == spec_occ(
                        snakes,
                        m,
                        w,
                        k as int,
                        c,
                    ),
                forall|s: int|
                    0 <= s < MAX_SNAKES as int ==> (#[trigger] healths@[s]) == (
                    match spec_owner(snakes, m, k as int, s) {
                        Some(kk) => snakes[kk].health,
                        None => 0u8,
                    }),
                forall|s: int|
                    0 <= s < MAX_SNAKES as int ==> (#[trigger] lengths@[s]) as int == (
                    match spec_owner(snakes, m, k as int, s) {
                        Some(kk) => snakes[kk].body@.len() as int,
                        None => 0,
                    }),
                forall|s: int|
                    0 <= s < MAX_SNAKES as int ==> (#[trigger] heads@[s]).0 as int == (
                    match spec_owner(snakes, m, k as int, s) {
                        Some(kk) => spec_cell_index(snakes[kk].body@[0], w),
                        None => 0,
                    }),
        {
            let sid_opt = get_snake_id(&game.snakes[k], snake_ids);
            if let Some(sid) = sid_opt {
                let s = sid.0 as usize;
                proof {
                    assert(spec_live(snakes, k as int));
                    assert(spec_mapped_id(snakes, m, k as int) == sid.0 as int);
                    assert(s < MAX_SNAKES);
                }
                healths.set(s, game.snakes[k].health);
                lengths.set(s, game.snakes[k].body.len() as u16);
                let p0 = game.snakes[k].body[0];
                proof {
                    assert(in_grid(p0, w, h));
                    lemma_cidx_inj(p0, p0, w, h);
                }
                let head_ci = CellIndex::new(p0, w);
                heads.set(s, head_ci);
                let q = uniq_positions(&game.snakes[k].body);
                let mut next_index = head_ci;
                let qn = q.len();
                proof {
                    lemma_uniq_first(snakes[k as int].body@);
                    lemma_uniq_props(snakes[k as int].body@);
                }
                for u in 0..qn
                    invariant
                        qn == q@.len(),
                        q@ == spec_uniq(snakes[k as int].body@),
                        cells@.len() == BOARD_SIZE,
                        next_index.0 as int == spec_cell_index(
                            if u == 0 {
                                snakes[k as int].body@[0]
                            } else {
                                q@[u - 1]
                            },
                            w,
                        ),
                        forall|c: int|
                            0 <= c < BOARD_SIZE && spec_covers_lt(snakes, w, k as int, u as int, c)
                                ==> (#[trigger] cells@[c]) == spec_content(
                                snakes,
                                m,
                                w,
                                k as int,
                                spec_cover_u(snakes, w, k as int, c),
                            ),
                        forall|c: int|
                            0 <= c < BOARD_SIZE && !spec_covers_lt(snakes, w, k as int, u as int, c)
                                ==> (#[trigger] cells@[c]) == spec_occ(snakes, m, w, k as int, c),
                {
                    let p = q[u];
                    proof {
                        assert(snakes[k as int].body@.contains(q@[u as int]));
                        let tw = choose|t: int|
                            0 <= t < snakes[k as int].body@.len() && (#[trigger] snakes[
                                k as int
                            ].body@[t]) == q@[u as int];
                        assert(in_grid(p, w, h));
                        lemma_cidx_inj(p, p, w, h);
                    }
                    let ci = CellIndex::new(p, w);
                    let cnt = count_position(&game.snakes[k].body, p);
                    let new_cell: Cell = if cnt == 3 {
                        Cell::make_triple_stacked_piece(sid)
                    } else if u == 0 {
                        let bl = game.snakes[k].body.len();
                        let pl = game.snakes[k].body[bl - 1];
                        proof {
                            assert(snakes[k as int].body@.last() == snakes[k as int].body@[bl
                                - 1]);
                            assert(in_grid(pl, w, h));
                            lemma_cidx_inj(pl, pl, w, h);
                        }
                        let tail_ci = CellIndex::new(pl, w);
                        Cell::make_snake_head(sid, tail_ci)
                    } else if cnt == 2 {
                        Cell::make_double_stacked_piece(sid, next_index)
                    } else {
                        Cell::make_body_piece(sid, next_index)
                    };
                    proof {
                        assert(new_cell == spec_content(snakes, m, w, k as int, u as int));
                    }
                    let ghost old_cells = cells@;
                    cells.set(ci.as_usize(), new_cell);
                    proof {
                        let c0 = spec_cell_index(p, w);
                        assert forall|c: int|
                            0 <= c < BOARD_SIZE && spec_covers_lt(
                                snakes,
                                w,
                                k as int,
                                u + 1,
                                c,
                            ) implies (#[trigger] cells@[c]) == spec_content(
                            snakes,
                            m,
                            w,
                            k as int,
                            spec_cover_u(snakes, w, k as int, c),
                        ) by {
                            let vv = choose|v: int|
                                0 <= v < u + 1 && spec_cell_index(
                                    #[trigger] spec_uniq(snakes[k as int].body@)[v],
                                    w,
                                ) == c;
                            let uu = spec_cover_u(snakes, w, k as int, c);
                            assert(spec_covers(snakes, w, k as int, c));
                            assert(0 <= uu < q@.len() && spec_cell_index(q@[uu], w) == c);
                            assert(snakes[k as int].body@.contains(q@[uu]));
                            assert(snakes[k as int].body@.contains(q@[vv]));
                            lemma_cidx_inj(q@[uu], q@[vv], w, h);
                            assert(uu == vv);
                            if vv == u as int {
                                assert(cells@[c] == new_cell);
                            } else {
                                assert(c != c0);
                            }
                        }
                        assert forall|c: int|
                            0 <= c < BOARD_SIZE && !spec_covers_lt(
                                snakes,
                                w,
                                k as int,
                                u + 1,
                                c,
                            ) implies (#[trigger] cells@[c]) == spec_occ(
                            snakes,
                            m,
                            w,
                            k as int,
                            c,
                        ) by {
                            assert(c != c0);
                            assert(!spec_covers_lt(snakes, w, k as int, u as int, c));
                        }
                    }
                    next_index = ci;
                }
                proof {
                    assert forall|c: int| 0 <= c < BOARD_SIZE implies (#[trigger] cells@[c])
                        == spec_occ(snakes, m, w, k + 1, c) by {
                        if spec_covers(snakes, w, k as int, c) {
                            assert(spec_covers_lt(snakes, w, k as int, qn as int, c));
                        } else {
                            assert(!spec_covers_lt(snakes, w, k as int, qn as int, c));
                        }
                    }
                    assert forall|s: int| 0 <= s < MAX_SNAKES as int implies (
                    #[trigger] healths@[s]) == (match spec_owner(snakes, m, k + 1, s) {
                        Some(kk) => snakes[kk].health,
                        None => 0u8,
                    }) by {}
                }
            } else {
                proof {
                    assert(!spec_live(snakes, k as int));
                    assert forall|c: int| 0 <= c < BOARD_SIZE implies (#[trigger] cells@[c])
                        == spec_occ(snakes, m, w, k + 1, c) by {}
                }
            }
        }

        // Hazard and food stamps, square by square over the actual grid in
        // row-major order.
        let grid: usize = (w as usize) * (h as usize);
        proof {
            assert(grid == w as int * h as int);
        }
        for ci in 0..grid
            invariant
                cells@.len() == BOARD_SIZE,
                grid == w as int * h as int <= BOARD_SIZE,
                forall|c: int|
                    0 <= c < ci as int ==> (#[trigger] cells@[c]) == spec_final_cell(game, m, c),
                forall|c: int|
                    ci as int <= c < BOARD_SIZE ==> (#[trigger] cells@[c]) == spec_occ(
                        snakes,
                        m,
                        w,
                        n as int,
                        c,
                    ),
        {
            let pos = CellIndex(ci as u16).into_position(w);
            proof {
                vstd::arithmetic::div_mod::lemma_fundamental_div_mod(ci as int, w as int);
                vstd::arithmetic::div_mod::lemma_mod_bound(ci as int, w as int);
                assert((ci as int) / (w as int) < h as int) by (nonlinear_arith)
                    requires
                        0 <= ci as int,
                        (ci as int) < (w as int) * (h as int),
                        w > 0,
                        ci as int == w as int * ((ci as int) / (w as int)) + (ci as int) % (w as int),
                        0 <= (ci as int) % (w as int) < w as int,
                ;
                assert((ci as u16) as int == ci as int);
                assert(in_grid(pos, w, h));
                assert(spec_cell_index(pos, w) == ci as int) by (nonlinear_arith)
                    requires
                        pos.x == (ci as int) % (w as int),
                        pos.y == (ci as int) / (w as int),
                        spec_cell_index(pos, w) == pos.y * w + pos.x,
                        ci as int == w as int * ((ci as int) / (w as int)) + (ci as int) % (
                        w as int),
                ;
                assert(spec_position(ci as u16, w) == pos);
            }
            let mut tmp = cells[ci];
            if contains_position(&game.hazards, pos) {
                tmp.set_hazard();
            }
            if contains_position(&game.food, pos) {
                tmp.set_food();
            }
            cells.set(ci, tmp);
            proof {
                assert((ci as int) < game.width * game.height);
                assert(cells@[ci as int] == spec_final_cell(game, m, ci as int));
            }
        }
        proof {
            assert forall|c: int| 0 <= c < BOARD_SIZE implies (#[trigger] cells@[c])
                == spec_final_cell(game, m, c) by {
                if c >= grid as int {
                    assert(!(c < game.width * game.height));
                }
            }
        }

        let hazard_damage: u8 = match game.hazard_damage_per_turn {
            Some(d) => d,
            None => 15,
        };
        let b = CellBoard {
            hazard_damage,
            cells,
            healths,
            heads,
            lengths,
            actual_width: w,
            actual_height: h,
        };
        proof {
            assert(Self::spec_converted(game, m, b));
            lemma_zero_cell();
            assert forall|c: int|
                0 <= c < BOARD_SIZE && !(#[trigger] b.cells@[c]).s_empty() implies (b.cells@[c].id
                as int) < MAX_SNAKES as int && b.healths@[b.cells@[c].id as int] > 0 && (
            b.cells@[c].idx as int) < b.actual_width * b.actual_height by {
                lemma_occ_struct(snakes, m, w, n as int, c);
                let o = spec_occ(snakes, m, w, n as int, c);
                let o2 = if game.hazards@.contains(spec_position(c as u16, w)) {
                    spec_set_hazard(o)
                } else {
                    o
                };
                let o3 = if game.food@.contains(spec_position(c as u16, w)) {
                    spec_set_food(o2)
                } else {
                    o2
                };
                lemma_flag_ops(o);
                lemma_flag_ops(o2);
                assert(b.cells@[c].s_kind() == o.s_kind() && b.cells@[c].id == o.id
                    && b.cells@[c].idx == o.idx);
                if o == zero_cell() {
                    assert(false);
                } else {
                    let kk = choose|kk: int|
                        0 <= kk < n as int && spec_live(snakes, kk) && spec_covers(snakes, w, kk, c)
                            && spec_occ(snakes, m, w, n as int, c) == spec_content(
                            snakes,
                            m,
                            w,
                            kk,
                            spec_cover_u(snakes, w, kk, c),
                        );
                    lemma_uniq_props(snakes[kk].body@);
                    lemma_content_props(
                        snakes,
                        m,
                        w,
                        h,
                        MAX_SNAKES as int,
                        kk,
                        spec_cover_u(snakes, w, kk, c),
                    );
                    lemma_owner_some(snakes, m, kk, n as int);
                    lemma_owner_props(snakes, m, n as int, spec_mapped_id(snakes, m, kk));
                }
            }
            assert forall|i: int|
                0 <= i < MAX_SNAKES as int && (#[trigger] b.healths@[i]) > 0 implies (b.heads@[i].0
                as int) < b.actual_width * b.actual_height && (b.cells@[b.heads@[i].0
                as int].s_head() || b.cells@[b.heads@[i].0 as int].s_kind() == KIND_TRIPLE)
                && b.cells@[b.heads@[i].0 as int].id as int == i by {
                lemma_owner_props(snakes, m, n as int, i);
                let kk = spec_owner(snakes, m, n as int, i).unwrap();
                let bd = snakes[kk].body@;
                lemma_uniq_first(bd);
                lemma_uniq_props(bd);
                assert(in_grid(bd[0], w, h));
                lemma_cidx_inj(bd[0], bd[0], w, h);
                let c0 = spec_cell_index(bd[0], w);
                assert(spec_cell_index(spec_uniq(bd)[0], w) == c0);
                assert(spec_covers(snakes, w, kk, c0));
                lemma_occ_unique(snakes, m, w, h, n as int, kk, c0);
                let uu = spec_cover_u(snakes, w, kk, c0);
                assert(0 <= uu < spec_uniq(bd).len() && spec_cell_index(spec_uniq(bd)[uu], w)
                    == c0);
                assert(bd.contains(spec_uniq(bd)[uu]));
                let tu = choose|t: int| 0 <= t < bd.len() && (#[trigger] bd[t]) == spec_uniq(bd)[uu];
                assert(in_grid(spec_uniq(bd)[uu], w, h));
                lemma_cidx_inj(spec_uniq(bd)[uu], spec_uniq(bd)[0], w, h);
                assert(uu == 0);
                lemma_content_props(snakes, m, w, h, MAX_SNAKES as int, kk, 0);
                assert(b.heads@[i].0 as int == c0);
                assert(0 <= c0 < BOARD_SIZE);
                assert(b.cells@[c0] == spec_final_cell(game, m, c0));
                let oc = spec_occ(snakes, m, w, n as int, c0);
                assert(oc == spec_content(snakes, m, w, kk, 0));
                let oc2 = if game.hazards@.contains(spec_position(c0 as u16, w)) {
                    spec_set_hazard(oc)
                } else {
                    oc
                };
                lemma_flag_ops(oc);
                lemma_flag_ops(oc2);
                assert(b.cells@[c0].s_kind() == oc.s_kind() && b.cells@[c0].id == oc.id);
            }
            assert(b.wf());
        }
        Ok(b)
    }
}

} // verus!
verus! {

/// Construction is deterministic: two boards built from the same snapshot
/// and id map are identical in every field.
pub proof fn lemma_construction_deterministic<const BOARD_SIZE: usize, const MAX_SNAKES: usize>(
    g: Game,
    m: Seq<(String, SnakeId)>,
    b1: CellBoard<BOARD_SIZE, MAX_SNAKES>,
    b2: CellBoard<BOARD_SIZE, MAX_SNAKES>,
)
    requires
        CellBoard::<BOARD_SIZE, MAX_SNAKES>::spec_converted(g, m, b1),
        CellBoard::<BOARD_SIZE, MAX_SNAKES>::spec_converted(g, m, b2),
    ensures
        b1.cells@ == b2.cells@,
        b1.healths@ == b2.healths@,
        b1.lengths@ == b2.lengths@,
        b1.heads@ == b2.heads@,
        b1.hazard_damage == b2.hazard_damage,
        b1.actual_width == b2.actual_width,
        b1.actual_height == b2.actual_height,
{
    assert(b1.cells@ =~= b2.cells@);
    assert(b1.healths@ =~= b2.healths@);
    assert(b1.lengths@ =~= b2.lengths@);
    assert forall|s: int| 0 <= s < MAX_SNAKES as int implies (#[trigger] b1.heads@[s])
        == b2.heads@[s] by {
        assert(b1.heads@[s].0 as int == b2.heads@[s].0 as int);
    }
    assert(b1.heads@ =~= b2.heads@);
}

impl<const BOARD_SIZE: usize, const MAX_SNAKES: usize> CellBoard<BOARD_SIZE, MAX_SNAKES> {
    /// Whether agent `i` is alive on this board.
    pub open spec fn s_alive(&self, i: int) -> bool {
        self.healths@[i] > 0
    }

    /// A coordinate that falls outside the actual grid: walls are absorbing,
    /// the only way off the board is past an edge.
    pub open spec fn spec_off_board(&self, p: Position) -> bool {
        p.x < 0 || p.x >= self.actual_width as int || p.y < 0 || p.y >= self.actual_height as int
    }

    pub fn off_board(&self, new_head: Position) -> (r: bool)
        ensures
            r == self.spec_off_board(new_head),
    {
        new_head.x < 0 || new_head.x >= self.actual_width as i32 || new_head.y < 0 || new_head.y
            >= self.actual_height as i32
    }

    pub fn get_health(&self, id: &SnakeId) -> (r: u8)
        requires
            self.wf(),
            (id.0 as int) < MAX_SNAKES as int,
        ensures
            r == self.healths@[id.0 as int],
    {
        self.healths[id.0 as usize]
    }

    pub fn get_length(&self, id: &SnakeId) -> (r: u16)
        requires
            self.wf(),
            (id.0 as int) < MAX_SNAKES as int,
        ensures
            r == self.lengths@[id.0 as int],
    {
        self.lengths[id.0 as usize]
    }

    pub fn get_head_as_native_position(&self, id: &SnakeId) -> (r: CellIndex)
        requires
            self.wf(),
            (id.0 as int) < MAX_SNAKES as int,
        ensures
            r == self.heads@[id.0 as int],
    {
        self.heads[id.0 as usize]
    }

    pub fn get_head_as_position(&self, id: &SnakeId) -> (r: Position)
        requires
            self.wf(),
            (id.0 as int) < MAX_SNAKES as int,
        ensures
            r == spec_position(self.heads@[id.0 as int].0, self.actual_width),
    {
        self.heads[id.0 as usize].into_position(self.actual_width)
    }

    pub fn get_hazard_damage(&self) -> (r: u8)
        ensures
            r == self.hazard_damage,
    {
        self.hazard_damage
    }

    pub fn get_actual_width(&self) -> (r: u8)
        ensures
            r == self.actual_width,
    {
        self.actual_width
    }

    pub fn get_actual_height(&self) -> (r: u8)
        ensures
            r == self.actual_height,
    {
        self.actual_height
    }

    /// The cell at a linear index, for food and hazard queries.
    pub fn get_cell(&self, ci: CellIndex) -> (r: Cell)
        requires
            self.wf(),
            (ci.0 as int) < BOARD_SIZE,
        ensures
            r == self.cells@[ci.0 as int],
    {
        self.cells[ci.0 as usize]
    }

    pub fn cell_is_body(&self, ci: CellIndex) -> (r: bool)
        requires
            self.wf(),
            (ci.0 as int) < BOARD_SIZE,
        ensures
            r == self.cells@[ci.0 as int].s_body(),
    {
        self.cells[ci.0 as usize].is_body()
    }

    pub fn cell_is_snake_head(&self, ci: CellIndex) -> (r: bool)
        requires
            self.wf(),
            (ci.0 as int) < BOARD_SIZE,
        ensures
            r == self.cells@[ci.0 as int].s_head(),
    {
        self.cells[ci.0 as usize].is_head()
    }

    /// The coordinate one step in direction `mv` from `pos`.
    pub open spec fn spec_step(pos: Position, mv: Move) -> Position {
        Position { x: (pos.x + mv.spec_dx()) as i32, y: (pos.y + mv.spec_dy()) as i32 }
    }

    /// The moves among the candidates `ms` whose step from `pos` stays on
    /// the grid, kept in candidate order.
    pub open spec fn legal_moves_among(&self, pos: CellIndex, ms: Seq<Move>) -> Seq<Move>
        decreases ms.len(),
    {
        if ms.len() == 0 {
            Seq::empty()
        } else {
            let prefix = self.legal_moves_among(pos, ms.drop_last());
            if !self.spec_off_board(
                Self::spec_step(spec_position(pos.0, self.actual_width), ms.last()),
            ) {
                prefix.push(ms.last())
            } else {
                prefix
            }
        }
    }

    /// The legal moves from `pos`, in the fixed `Move::all` order: exactly
    /// those whose step stays on the grid.
    pub open spec fn spec_legal_moves(&self, pos: CellIndex) -> Seq<Move> {
        self.legal_moves_among(pos, seq![Move::Up, Move::Down, Move::Left, Move::Right])
    }

    /// Every move whose step from `pos` stays on the grid appears in
    /// `spec_legal_moves`.
    pub proof fn lemma_legal_moves_complete(&self, pos: CellIndex, mv: Move)
        requires
            !self.spec_off_board(Self::spec_step(spec_position(pos.0, self.actual_width), mv)),
        ensures
            self.spec_legal_moves(pos).contains(mv),
    {
        lemma_move_exhaustive(mv);
        let m4 = seq![Move::Up, Move::Down, Move::Left, Move::Right];
        let m3 = seq![Move::Up, Move::Down, Move::Left];
        let m2 = seq![Move::Up, Move::Down];
        let m1 = seq![Move::Up];
        let m0 = Seq::<Move>::empty();
        assert(m4.drop_last() =~= m3 && m4.last() == Move::Right);
        assert(m3.drop_last() =~= m2 && m3.last() == Move::Left);
        assert(m2.drop_last() =~= m1 && m2.last() == Move::Down);
        assert(m1.drop_last() =~= m0 && m1.last() == Move::Up);
        let l0 = self.legal_moves_among(pos, m0);
        let l1 = self.legal_moves_among(pos, m1);
        let l2 = self.legal_moves_among(pos, m2);
        let l3 = self.legal_moves_among(pos, m3);
        let l4 = self.legal_moves_among(pos, m4);
        assert(l0 =~= Seq::<Move>::empty());
        if mv == Move::Up {
            assert(l1 == l0.push(Move::Up));
            assert(l2[0] == Move::Up && l2.len() >= 1);
            assert(l3[0] == Move::Up && l3.len() >= 1);
            assert(l4[0] == Move::Up && l4.len() >= 1);
            assert(l4.contains(mv));
        } else if mv == Move::Down {
            assert(l2 == l1.push(Move::Down));
            let i = l1.len() as int;
            assert(l2[i] == Move::Down && l2.len() == i + 1);
            assert(l3[i] == Move::Down && l3.len() >= i + 1);
            assert(l4[i] == Move::Down && l4.len() >= i + 1);
            assert(l4.contains(mv));
        } else if mv == Move::Left {
            assert(l3 == l2.push(Move::Left));
            let i = l2.len() as int;
            assert(l3[i] == Move::Left && l3.len() == i + 1);
            assert(l4[i] == Move::Left && l4.len() >= i + 1);
            assert(l4.contains(mv));
        } else {
            assert(l4 == l3.push(Move::Right));
            assert(l4.last() == Move::Right);
            assert(l4.contains(mv));
        }
    }

    /// The moves from `pos` that stay on the grid, each with the linear index
    /// it leads to: exactly `spec_legal_moves(pos)`, in that order, paired
    /// with the indices their steps decode to.
    #[verifier::loop_isolation(false)]
    pub fn possible_moves(&self, pos: &CellIndex) -> (r: Vec<(Move, CellIndex)>)
        requires
            self.wf(),
            (pos.0 as int) < self.actual_width * self.actual_height,
        ensures
            r@.len() == self.spec_legal_moves(*pos).len(),
            forall|j: int|
                0 <= j < r@.len() ==> (#[trigger] r@[j]).0 == self.spec_legal_moves(*pos)[j]
                    && !self.spec_off_board(
                    Self::spec_step(spec_position(pos.0, self.actual_width), r@[j].0),
                ) && r@[j].1.0 as int == spec_cell_index(
                    Self::spec_step(spec_position(pos.0, self.actual_width), r@[j].0),
                    self.actual_width,
                ),
            forall|mv: Move|
                !self.spec_off_board(
                    Self::spec_step(spec_position(pos.0, self.actual_width), mv),
                ) ==> exists|j: int| 0 <= j < r@.len() && (#[trigger] r@[j]).0 == mv,
    {
        let width = self.actual_width;
        let head_pos = pos.into_position(width);
        proof {
            lemma_cell_index_round_trip(*pos, width);
            assert(head_pos.y <= 65535) by (nonlinear_arith)
                requires
                    head_pos.y >= 0,
                    head_pos.x >= 0,
                    width >= 1,
                    head_pos.y * width + head_pos.x <= 65535,
            ;
        }
        let moves = Move::all();
        let mut r: Vec<(Move, CellIndex)> = Vec::new();
        let mut j: usize = 0;
        while j < moves.len()
            invariant
                moves@ == seq![Move::Up, Move::Down, Move::Left, Move::Right],
                0 <= j <= 4,
                head_pos == spec_position(pos.0, self.actual_width),
                0 <= head_pos.x < self.actual_width,
                0 <= head_pos.y <= 65535,
                r@.len() == self.legal_moves_among(*pos, moves@.take(j as int)).len(),
                forall|t: int|
                    0 <= t < r@.len() ==> (#[trigger] r@[t]).0 == self.legal_moves_among(
                        *pos,
                        moves@.take(j as int),
                    )[t] && !self.spec_off_board(Self::spec_step(head_pos, r@[t].0))
                        && r@[t].1.0 as int == spec_cell_index(
                        Self::spec_step(head_pos, r@[t].0),
                        self.actual_width,
                    ),
            decreases 4 - j,
        {
            let mv = moves[j];
            let v = mv.to_vector();
            let new_head = head_pos.add_vec(v);
            proof {
                assert(Self::spec_step(head_pos, mv) == new_head);
                assert(moves@.take(j + 1).drop_last() =~= moves@.take(j as int));
                assert(moves@.take(j + 1).last() == mv);
            }
            if !self.off_board(new_head) {
                proof {
                    assert(in_grid(new_head, self.actual_width, self.actual_height));
                    lemma_cidx_inj(new_head, new_head, self.actual_width, self.actual_height);
                    assert((self.actual_width as int) * (self.actual_height as int) <= 65025)
                        by (nonlinear_arith)
                        requires
                            self.actual_width <= 255,
                            self.actual_height <= 255,
                    ;
                }
                let ci = CellIndex::new(new_head, width);
                r.push((mv, ci));
                proof {
                    assert(r@[r@.len() - 1].0 == mv);
                    assert(r@[r@.len() - 1].1 == ci);
                }
            }
            j += 1;
        }
        proof {
            assert(moves@.take(4) =~= moves@);
            assert(moves@[0] == Move::Up && moves@[1] == Move::Down && moves@[2] == Move::Left
                && moves@[3] == Move::Right);
            assert forall|mv: Move|
                !self.spec_off_board(
                    #[trigger] Self::spec_step(spec_position(pos.0, self.actual_width), mv),
                ) implies exists|jj: int| 0 <= jj < r@.len() && (#[trigger] r@[jj]).0 == mv by {
                self.lemma_legal_moves_complete(*pos, mv);
                let jw = choose|jj: int|
                    0 <= jj < self.spec_legal_moves(*pos).len() && self.spec_legal_moves(*pos)[jj]
                        == mv;
                assert(r@[jw].0 == mv);
            }
        }
        r
    }

    /// Whether `ci` is the linear index one legal step away from `pos`.
    pub open spec fn spec_is_neighbor(&self, pos: CellIndex, ci: CellIndex) -> bool {
        exists|mv: Move|
            !self.spec_off_board(
                #[trigger] Self::spec_step(spec_position(pos.0, self.actual_width), mv),
            ) && ci.0 as int == spec_cell_index(
                Self::spec_step(spec_position(pos.0, self.actual_width), mv),
                self.actual_width,
            )
    }

    /// The on-grid linear indices one step from `pos`: the indices the legal
    /// moves lead to, in the fixed move order.
    #[verifier::loop_isolation(false)]
    pub fn neighbors(&self, pos: &CellIndex) -> (r: Vec<CellIndex>)
        requires
            self.wf(),
            (pos.0 as int) < self.actual_width * self.actual_height,
        ensures
            r@.len() == self.spec_legal_moves(*pos).len(),
            forall|j: int|
                0 <= j < r@.len() ==> (#[trigger] r@[j]).0 as int == spec_cell_index(
                    Self::spec_step(
                        spec_position(pos.0, self.actual_width),
                        self.spec_legal_moves(*pos)[j],
                    ),
                    self.actual_width,
                ),
            forall|j: int|
                0 <= j < r@.len() ==> self.spec_is_neighbor(*pos, #[trigger] r@[j]),
    {
        let pm = self.possible_moves(pos);
        let mut r: Vec<CellIndex> = Vec::new();
        let mut j: usize = 0;
        while j < pm.len()
            invariant
                0 <= j <= pm@.len(),
                pm@.len() == self.spec_legal_moves(*pos).len(),
                forall|t: int|
                    0 <= t < pm@.len() ==> (#[trigger] pm@[t]).0 == self.spec_legal_moves(*pos)[t]
                        && !self.spec_off_board(
                        Self::spec_step(spec_position(pos.0, self.actual_width), pm@[t].0),
                    ) && pm@[t].1.0 as int == spec_cell_index(
                        Self::spec_step(spec_position(pos.0, self.actual_width), pm@[t].0),
                        self.actual_width,
                    ),
                r@.len() == j as int,
                forall|t: int|
                    0 <= t < r@.len() ==> (#[trigger] r@[t]).0 as int == spec_cell_index(
                        Self::spec_step(
                            spec_position(pos.0, self.actual_width),
                            self.spec_legal_moves(*pos)[t],
                        ),
                        self.actual_width,
                    ),
                forall|t: int|
                    0 <= t < r@.len() ==> self.spec_is_neighbor(*pos, #[trigger] r@[t]),
            decreases pm@.len() - j,
        {
            let ci = pm[j].1;
            proof {
                let mvw = pm@[j as int].0;
                assert(!self.spec_off_board(
                    Self::spec_step(spec_position(pos.0, self.actual_width), mvw),
                ) && ci.0 as int == spec_cell_index(
                    Self::spec_step(spec_position(pos.0, self.actual_width), mvw),
                    self.actual_width,
                ));
                assert(self.spec_is_neighbor(*pos, ci));
            }
            r.push(ci);
            j += 1;
        }
        r
    }
}

} // verus!
verus! {

/// Relies on rand's `Rng::gen_range` over `0..n` on the thread-local
/// generator: it returns a value in the given range and panics only on an
/// empty range.
#[verifier::external_body]
fn rand_below(n: usize) -> (r: usize)
    requires
        n >= 1,
    ensures
        r < n,
{
    rand::Rng::gen_range(&mut rand::thread_rng(), 0..n)
}

impl<const BOARD_SIZE: usize, const MAX_SNAKES: usize> CellBoard<BOARD_SIZE, MAX_SNAKES> {
    /// The indices of the live agents among the first `n` slots, in
    /// increasing order.
    pub open spec fn live_ids_upto(&self, n: int) -> Seq<int>
        decreases n,
    {
        if n <= 0 {
            Seq::empty()
        } else {
            self.live_ids_upto(n - 1) + if self.s_alive(n - 1) {
                seq![n - 1]
            } else {
                Seq::<int>::empty()
            }
        }
    }

    /// The indices of all live agents, in increasing order.
    pub open spec fn spec_live_ids(&self) -> Seq<int> {
        self.live_ids_upto(MAX_SNAKES as int)
    }

    /// A reasonable move for agent `i`: its step from the agent's head stays
    /// on the grid and lands on no body segment and no head.
    pub open spec fn spec_safe_move(&self, i: int, mv: Move) -> bool {
        let p2 = Self::spec_step(spec_position(self.heads@[i].0, self.actual_width), mv);
        &&& !self.spec_off_board(p2)
        &&& !self.cells@[spec_cell_index(p2, self.actual_width)].s_body()
        &&& !self.cells@[spec_cell_index(p2, self.actual_width)].s_head()
    }

    /// Whether agent `i` has any reasonable move at all.
    pub open spec fn has_safe_move(&self, i: int) -> bool {
        exists|mv: Move| self.spec_safe_move(i, mv)
    }

    /// One random reasonable move per live agent: exactly one pair per live
    /// agent, in increasing agent order; the move is reasonable whenever the
    /// agent has any reasonable move, and the default move otherwise. Which
    /// reasonable move comes back depends on the random draw alone.
    #[verifier::loop_isolation(false)]
    pub fn random_reasonable_move_for_each_snake(&self) -> (r: Vec<(SnakeId, Move)>)
        requires
            self.wf(),
            MAX_SNAKES as int <= 256,
        ensures
            r@.len() == self.spec_live_ids().len(),
            forall|t: int|
                0 <= t < r@.len() ==> (#[trigger] r@[t]).0.0 as int == self.spec_live_ids()[t],
            forall|t: int|
                0 <= t < r@.len() ==> (self.has_safe_move(self.spec_live_ids()[t])
                    ==> self.spec_safe_move(self.spec_live_ids()[t], (#[trigger] r@[t]).1)),
            forall|t: int|
                0 <= t < r@.len() ==> (!self.has_safe_move(self.spec_live_ids()[t]) ==> (
                #[trigger] r@[t]).1 == Move::Up),
    {
        let mut r: Vec<(SnakeId, Move)> = Vec::new();
        let mut i: usize = 0;
        while i < MAX_SNAKES
            invariant
                0 <= i <= MAX_SNAKES,
                r@.len() == self.live_ids_upto(i as int).len(),
                forall|t: int|
                    0 <= t < r@.len() ==> (#[trigger] r@[t]).0.0 as int == self.live_ids_upto(
                        i as int,
                    )[t],
                forall|t: int|
                    0 <= t < r@.len() ==> (self.has_safe_move(self.live_ids_upto(i as int)[t])
                        ==> self.spec_safe_move(
                        self.live_ids_upto(i as int)[t],
                        (#[trigger] r@[t]).1,
                    )),
                forall|t: int|
                    0 <= t < r@.len() ==> (!self.has_safe_move(self.live_ids_upto(i as int)[t])
                        ==> (#[trigger] r@[t]).1 == Move::Up),
            decreases MAX_SNAKES - i,
        {
            if self.healths[i] > 0 {
                let head = self.heads[i];
                let candidates = self.possible_moves(&head);
                let mut good: Vec<Move> = Vec::new();
                let mut j: usize = 0;
                while j < candidates.len()
                    invariant
                        0 <= j <= candidates@.len(),
                        self.s_alive(i as int),
                        head == self.heads@[i as int],
                        candidates@.len() == self.spec_legal_moves(head).len(),
                        forall|t: int|
                            0 <= t < candidates@.len() ==> (#[trigger] candidates@[t]).0
                                == self.spec_legal_moves(head)[t] && !self.spec_off_board(
                                Self::spec_step(spec_position(head.0, self.actual_width), candidates@[t].0),
                            ) && candidates@[t].1.0 as int == spec_cell_index(
                                Self::spec_step(spec_position(head.0, self.actual_width), candidates@[t].0),
                                self.actual_width,
                            ),
                        forall|t: int|
                            0 <= t < good@.len() ==> self.spec_safe_move(
                                i as int,
                                #[trigger] good@[t],
                            ),
                        good@.len() == 0 ==> forall|t: int|
                            0 <= t < j ==> !self.spec_safe_move(
                                i as int,
                                (#[trigger] candidates@[t]).0,
                            ),
                    decreases candidates@.len() - j,
                {
                    let ci = candidates[j].1;
                    proof {
                        let p2 = Self::spec_step(
                            spec_position(head.0, self.actual_width),
                            candidates@[j as int].0,
                        );
                        assert(in_grid(p2, self.actual_width, self.actual_height));
                        lemma_cidx_inj(p2, p2, self.actual_width, self.actual_height);
                    }
                    if !self.cells[ci.0 as usize].is_body() && !self.cells[ci.0 as usize].is_head()
                    {
                        good.push(candidates[j].0);
                        proof {
                            assert(good@.last() == candidates@[j as int].0);
                            assert(self.spec_safe_move(i as int, candidates@[j as int].0));
                        }
                    }
                    j += 1;
                }
                let mv: Move;
                if good.len() > 0 {
                    let pick = rand_below(good.len());
                    mv = good[pick];
                    proof {
                        assert(self.spec_safe_move(i as int, mv));
                        assert(self.has_safe_move(i as int));
                    }
                } else {
                    proof {
                        assert forall|m2: Move| !self.spec_safe_move(i as int, m2) by {
                            if self.spec_safe_move(i as int, m2) {
                                self.lemma_legal_moves_complete(head, m2);
                                let jw = choose|jj: int|
                                    0 <= jj < self.spec_legal_moves(head).len()
                                        && self.spec_legal_moves(head)[jj] == m2;
                                assert(candidates@[jw].0 == m2);
                                assert(!self.spec_safe_move(i as int, candidates@[jw].0));
                            }
                        }
                        assert(!self.has_safe_move(i as int));
                    }
                    mv = Move::Up;
                }
                r.push((SnakeId(i as u8), mv));
                proof {
                    assert(self.live_ids_upto(i + 1) =~= self.live_ids_upto(i as int).push(
                        i as int,
                    ));
                    assert(r@[r@.len() - 1].0.0 as int == i as int);
                }
            } else {
                proof {
                    assert(self.live_ids_upto(i + 1) =~= self.live_ids_upto(i as int));
                }
            }
            i += 1;
        }
        r
    }
}

} // verus!
