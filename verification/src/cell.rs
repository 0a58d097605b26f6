use vstd::prelude::*;
use vstd::arithmetic::div_mod::{lemma_fundamental_div_mod, lemma_mod_bound, lemma_div_is_ordered_by_denominator, lemma_div_pos_is_pos};

verus! {

/// A dense, small-integer identifier for one agent on the board.
#[derive(Clone, Copy, Debug, PartialEq, Eq, Structural)]
pub struct SnakeId(pub u8);

/// A 2D grid coordinate. Signed so that a candidate head one step past an
/// edge can be represented and rejected.
#[derive(Clone, Copy, Debug, PartialEq, Eq, Structural)]
pub struct Position {
    pub x: i32,
    pub y: i32,
}

/// One of the four moves an agent can make in a tick.
#[derive(Clone, Copy, Debug, PartialEq, Eq, Structural)]
pub enum Move {
    Up,
    Down,
    Left,
    Right,
}

impl Move {
    /// The unit vector this move adds to a coordinate: `y` grows upward.
    pub open spec fn spec_dx(self) -> int {
        match self {
            Move::Left => -1,
            Move::Right => 1,
            _ => 0,
        }
    }

    pub open spec fn spec_dy(self) -> int {
        match self {
            Move::Up => 1,
            Move::Down => -1,
            _ => 0,
        }
    }

    pub fn to_vector(&self) -> (r: (i32, i32))
        ensures
            r.0 as int == self.spec_dx(),
            r.1 as int == self.spec_dy(),
    {
        match self {
            Move::Up => (0, 1),
            Move::Down => (0, -1),
            Move::Left => (-1, 0),
            Move::Right => (1, 0),
        }
    }

    /// All four moves, in a fixed order.
    pub fn all() -> (r: Vec<Move>)
        ensures
            r@ == seq![Move::Up, Move::Down, Move::Left, Move::Right],
    {
        let mut v: Vec<Move> = Vec::new();
        v.push(Move::Up);
        v.push(Move::Down);
        v.push(Move::Left);
        v.push(Move::Right);
        proof {
            assert(v@ =~= seq![Move::Up, Move::Down, Move::Left, Move::Right]);
        }
        v
    }
}

impl Position {
    /// Adds a move vector to a coordinate.
    pub fn add_vec(&self, v: (i32, i32)) -> (r: Position)
        requires
            -1000000 <= self.x + v.0 <= 1000000,
            -1000000 <= self.y + v.1 <= 1000000,
        ensures
            r.x as int == self.x + v.0,
            r.y as int == self.y + v.1,
    {
        Position { x: self.x + v.0, y: self.y + v.1 }
    }
}

/// A linear address into the board's flat cell array: `idx = y * width + x`.
#[derive(Clone, Copy, Debug, PartialEq, Eq, Structural)]
pub struct CellIndex(pub u16);

/// The linear index of an in-grid coordinate, for a board of the given width.
pub open spec fn spec_cell_index(p: Position, width: u8) -> int {
    p.y * width + p.x
}

/// The coordinate a linear index decodes to, for a board of the given width.
pub open spec fn spec_position(idx: u16, width: u8) -> Position
    recommends
        width > 0,
{
    Position { x: (idx as int % width as int) as i32, y: (idx as int / width as int) as i32 }
}

impl CellIndex {
    /// Converts an in-grid coordinate to its linear index.
    pub fn new(pos: Position, width: u8) -> (r: CellIndex)
        requires
            0 <= pos.x < width,
            0 <= pos.y,
            spec_cell_index(pos, width) <= u16::MAX,
        ensures
            r.0 as int == spec_cell_index(pos, width),
    {
        let v: u32 = (pos.y as u32) * (width as u32) + (pos.x as u32);
        CellIndex(v as u16)
    }

    /// The exact inverse of `new` for indices that lie on a board of the
    /// given width.
    pub fn into_position(&self, width: u8) -> (r: Position)
        requires
            width > 0,
        ensures
            r == spec_position(self.0, width),
    {
        let x: u16 = self.0 % (width as u16);
        let y: u16 = self.0 / (width as u16);
        Position { x: x as i32, y: y as i32 }
    }

    pub fn as_usize(&self) -> (r: usize)
        ensures
            r == self.0 as usize,
    {
        self.0 as usize
    }
}

/// Every move is one of the four listed by `Move::all`.
pub proof fn lemma_move_exhaustive(mv: Move)
    ensures
        mv == Move::Up || mv == Move::Down || mv == Move::Left || mv == Move::Right,
{
}

/// Decoding a linear index to a coordinate and re-encoding it gives the index
/// back, and the decoded coordinate is a valid argument to `CellIndex::new`.
pub proof fn lemma_cell_index_round_trip(idx: CellIndex, width: u8)
    requires
        width > 0,
    ensures
        spec_cell_index(spec_position(idx.0, width), width) == idx.0,
        0 <= spec_position(idx.0, width).x < width,
        0 <= spec_position(idx.0, width).y,
{
    lemma_fundamental_div_mod(idx.0 as int, width as int);
    lemma_mod_bound(idx.0 as int, width as int);
    lemma_div_pos_is_pos(idx.0 as int, width as int);
    lemma_div_is_ordered_by_denominator(idx.0 as int, 1, width as int);
    assert((idx.0 as int / width as int) * width + (idx.0 as int % width as int) == idx.0 as int)
        by (nonlinear_arith)
        requires
            idx.0 as int == width as int * (idx.0 as int / width as int) + (idx.0 as int % width as int),
    ;
}

/// Occupancy codes held in the low three bits of a cell's flag byte.
pub const KIND_EMPTY: u8 = 0;
pub const KIND_BODY: u8 = 1;
pub const KIND_DOUBLE: u8 = 2;
pub const KIND_TRIPLE: u8 = 3;
pub const KIND_HEAD: u8 = 4;

/// Mask of the occupancy code within the flag byte.
pub const KIND_MASK: u8 = 0x07;
/// Flag bit: the square holds food.
pub const FOOD_FLAG: u8 = 0x08;
/// Flag bit: the square is hazardous.
pub const HAZARD_FLAG: u8 = 0x10;
/// Mask of both flag bits together.
pub const FLAGS_MASK: u8 = 0x18;

/// One grid square, packed: a flag byte holding the occupancy code and the
/// food and hazard bits, the owning agent's id, and the linked same-array
/// index that reconstructs body order without pointers.
#[derive(Clone, Copy, Debug, PartialEq, Eq, Structural)]
pub struct Cell {
    pub flags: u8,
    pub id: u8,
    pub idx: u16,
}

impl Cell {
    /// The occupancy code of this cell.
    pub open spec fn s_kind(self) -> u8 {
        self.flags & KIND_MASK
    }

    pub open spec fn s_empty(self) -> bool {
        self.s_kind() == KIND_EMPTY
    }

    pub open spec fn s_food(self) -> bool {
        self.flags & FOOD_FLAG != 0
    }

    pub open spec fn s_hazard(self) -> bool {
        self.flags & HAZARD_FLAG != 0
    }

    pub open spec fn s_head(self) -> bool {
        self.s_kind() == KIND_HEAD
    }

    pub open spec fn s_body(self) -> bool {
        self.s_kind() == KIND_BODY || self.s_kind() == KIND_DOUBLE || self.s_kind() == KIND_TRIPLE
    }

    /// How many coincident body segments this cell stands for.
    pub open spec fn s_mult(self) -> int {
        if self.s_kind() == KIND_BODY || self.s_kind() == KIND_HEAD {
            1
        } else if self.s_kind() == KIND_DOUBLE {
            2
        } else if self.s_kind() == KIND_TRIPLE {
            3
        } else {
            0
        }
    }
}

/// An occupancy write that keeps the square's food and hazard flags.
pub open spec fn spec_with_kind(c: Cell, kind: u8, id: u8, idx: u16) -> Cell {
    Cell { flags: (c.flags & FLAGS_MASK) | kind, id: id, idx: idx }
}

/// Clearing occupancy: back to empty, food and hazard flags kept.
pub open spec fn spec_removed(c: Cell) -> Cell {
    Cell { flags: c.flags & FLAGS_MASK, id: 0, idx: 0 }
}

pub open spec fn spec_set_food(c: Cell) -> Cell {
    Cell { flags: c.flags | FOOD_FLAG, ..c }
}

pub open spec fn spec_clear_food(c: Cell) -> Cell {
    Cell { flags: c.flags & !FOOD_FLAG, ..c }
}

pub open spec fn spec_set_hazard(c: Cell) -> Cell {
    Cell { flags: c.flags | HAZARD_FLAG, ..c }
}

pub open spec fn spec_clear_hazard(c: Cell) -> Cell {
    Cell { flags: c.flags & !HAZARD_FLAG, ..c }
}

/// Occupancy writes leave both flags alone and set exactly the occupancy
/// code, owner and link asked for.
pub broadcast proof fn lemma_with_kind(c: Cell, kind: u8, id: u8, idx: u16)
    requires
        kind < 8,
    ensures
        (#[trigger] spec_with_kind(c, kind, id, idx)).s_kind() == kind,
        spec_with_kind(c, kind, id, idx).s_food() == c.s_food(),
        spec_with_kind(c, kind, id, idx).s_hazard() == c.s_hazard(),
        spec_with_kind(c, kind, id, idx).id == id,
        spec_with_kind(c, kind, id, idx).idx == idx,
{
    let f = c.flags;
    assert(((f & 0x18) | kind) & 0x07 == kind && (((f & 0x18) | kind) & 0x08 == 0) == (f & 0x08
        == 0) && (((f & 0x18) | kind) & 0x10 == 0) == (f & 0x10 == 0)) by (bit_vector)
        requires
            kind < 8,
    ;
}

pub broadcast proof fn lemma_removed(c: Cell)
    ensures
        (#[trigger] spec_removed(c)).s_kind() == KIND_EMPTY,
        spec_removed(c).s_food() == c.s_food(),
        spec_removed(c).s_hazard() == c.s_hazard(),
        spec_removed(c).id == 0,
        spec_removed(c).idx == 0,
{
    let f = c.flags;
    assert((f & 0x18) & 0x07 == 0 && ((f & 0x18) & 0x08 == 0) == (f & 0x08 == 0) && ((f & 0x18)
        & 0x10 == 0) == (f & 0x10 == 0)) by (bit_vector);
}

/// The food and hazard bits are orthogonal: setting or clearing one never
/// changes the occupancy code, the owner, the link, or the other bit.
pub broadcast proof fn lemma_flag_ops(c: Cell)
    ensures
        (#[trigger] spec_set_food(c)).s_kind() == c.s_kind(),
        spec_set_food(c).s_food(),
        spec_set_food(c).s_hazard() == c.s_hazard(),
        spec_set_food(c).id == c.id,
        spec_set_food(c).idx == c.idx,
        (#[trigger] spec_clear_food(c)).s_kind() == c.s_kind(),
        !spec_clear_food(c).s_food(),
        spec_clear_food(c).s_hazard() == c.s_hazard(),
        spec_clear_food(c).id == c.id,
        spec_clear_food(c).idx == c.idx,
        (#[trigger] spec_set_hazard(c)).s_kind() == c.s_kind(),
        spec_set_hazard(c).s_food() == c.s_food(),
        spec_set_hazard(c).s_hazard(),
        spec_set_hazard(c).id == c.id,
        spec_set_hazard(c).idx == c.idx,
        (#[trigger] spec_clear_hazard(c)).s_kind() == c.s_kind(),
        spec_clear_hazard(c).s_food() == c.s_food(),
        !spec_clear_hazard(c).s_hazard(),
        spec_clear_hazard(c).id == c.id,
        spec_clear_hazard(c).idx == c.idx,
{
    let f = c.flags;
    assert((f | 0x08) & 0x07 == f & 0x07 && (f | 0x08) & 0x08 != 0 && ((f | 0x08) & 0x10 == 0) == (
    f & 0x10 == 0)) by (bit_vector);
    assert((f & !0x08) & 0x07 == f & 0x07 && (f & !0x08) & 0x08 == 0 && ((f & !0x08) & 0x10 == 0)
        == (f & 0x10 == 0)) by (bit_vector);
    assert((f | 0x10) & 0x07 == f & 0x07 && (f | 0x10) & 0x10 != 0 && ((f | 0x10) & 0x08 == 0) == (
    f & 0x08 == 0)) by (bit_vector);
    assert((f & !0x10) & 0x07 == f & 0x07 && (f & !0x10) & 0x10 == 0 && ((f & !0x10) & 0x08 == 0)
        == (f & 0x08 == 0)) by (bit_vector);
}

/// Clearing the hazard bit restores exactly the value the cell had before the
/// bit was set, whatever its occupancy.
pub proof fn lemma_hazard_exact_restore(c: Cell)
    requires
        !c.s_hazard(),
    ensures
        spec_clear_hazard(spec_set_hazard(c)) == c,
{
    let f = c.flags;
    assert(f & 0x10 == 0 ==> (f | 0x10) & !0x10 == f) by (bit_vector);
}

/// Toggling hazard on an occupied square never changes the occupancy queries,
/// and toggling food never changes the hazard bit.
pub proof fn lemma_flags_independent_of_occupancy(c: Cell)
    ensures
        spec_set_hazard(c).s_kind() == c.s_kind(),
        spec_set_hazard(c).id == c.id,
        spec_clear_hazard(c).s_kind() == c.s_kind(),
        spec_clear_hazard(c).id == c.id,
        spec_set_food(c).s_hazard() == c.s_hazard(),
        spec_clear_food(c).s_hazard() == c.s_hazard(),
{
    lemma_flag_ops(c);
}

/// A removed and then hazard-flagged cell is empty, hazardous, and owned by
/// no agent.
pub proof fn lemma_remove_then_hazard(c: Cell)
    ensures
        spec_set_hazard(spec_removed(c)).s_empty(),
        spec_set_hazard(spec_removed(c)).s_hazard(),
        spec_set_hazard(spec_removed(c)).id == 0,
        spec_set_hazard(spec_removed(c)).idx == 0,
{
    lemma_removed(c);
    lemma_flag_ops(spec_removed(c));
}

/// A double-stacked cell that is hazard-flagged and then hazard-cleared still
/// reports body occupancy and no hazard.
pub proof fn lemma_double_stack_hazard_round_trip(c: Cell)
    requires
        c.s_kind() == KIND_DOUBLE,
    ensures
        spec_clear_hazard(spec_set_hazard(c)).s_body(),
        !spec_clear_hazard(spec_set_hazard(c)).s_hazard(),
{
    lemma_flag_ops(c);
    lemma_flag_ops(spec_set_hazard(c));
}

impl Cell {
    /// A fresh square: unoccupied, no food, no hazard.
    pub fn empty() -> (r: Cell)
        ensures
            r == (Cell { flags: 0, id: 0, idx: 0 }),
            r.s_empty(),
            !r.s_food(),
            !r.s_hazard(),
    {
        proof {
            assert(0u8 & 0x07 == 0 && 0u8 & 0x08 == 0 && 0u8 & 0x10 == 0) by (bit_vector);
        }
        Cell { flags: 0, id: 0, idx: 0 }
    }

    /// A fresh single body segment owned by `id`, linked to the next segment
    /// toward the head.
    pub fn make_body_piece(id: SnakeId, next: CellIndex) -> (r: Cell)
        ensures
            r == spec_with_kind(Cell { flags: 0, id: 0, idx: 0 }, KIND_BODY, id.0, next.0),
            r.s_kind() == KIND_BODY,
            !r.s_food(),
            !r.s_hazard(),
            r.id == id.0,
            r.idx == next.0,
    {
        proof {
            lemma_with_kind(Cell { flags: 0, id: 0, idx: 0 }, KIND_BODY, id.0, next.0);
            assert(0u8 & 0x08 == 0 && 0u8 & 0x10 == 0) by (bit_vector);
        }
        Cell { flags: (0u8 & FLAGS_MASK) | KIND_BODY, id: id.0, idx: next.0 }
    }

    /// A fresh square holding the agent's two most recently added coincident
    /// segments.
    pub fn make_double_stacked_piece(id: SnakeId, next: CellIndex) -> (r: Cell)
        ensures
            r == spec_with_kind(Cell { flags: 0, id: 0, idx: 0 }, KIND_DOUBLE, id.0, next.0),
            r.s_kind() == KIND_DOUBLE,
            !r.s_food(),
            !r.s_hazard(),
            r.id == id.0,
            r.idx == next.0,
    {
        proof {
            lemma_with_kind(Cell { flags: 0, id: 0, idx: 0 }, KIND_DOUBLE, id.0, next.0);
            assert(0u8 & 0x08 == 0 && 0u8 & 0x10 == 0) by (bit_vector);
        }
        Cell { flags: (0u8 & FLAGS_MASK) | KIND_DOUBLE, id: id.0, idx: next.0 }
    }

    /// A fresh spawn square holding three or more coincident segments: a
    /// terminal, self-referential encoding rather than a chain link.
    pub fn make_triple_stacked_piece(id: SnakeId) -> (r: Cell)
        ensures
            r == spec_with_kind(Cell { flags: 0, id: 0, idx: 0 }, KIND_TRIPLE, id.0, 0),
            r.s_kind() == KIND_TRIPLE,
            !r.s_food(),
            !r.s_hazard(),
            r.id == id.0,
            r.idx == 0,
    {
        proof {
            lemma_with_kind(Cell { flags: 0, id: 0, idx: 0 }, KIND_TRIPLE, id.0, 0);
            assert(0u8 & 0x08 == 0 && 0u8 & 0x10 == 0) by (bit_vector);
        }
        Cell { flags: (0u8 & FLAGS_MASK) | KIND_TRIPLE, id: id.0, idx: 0 }
    }

    /// A fresh head square: its link holds the tail's own index, so the tail
    /// is found in O(1) without walking the body.
    pub fn make_snake_head(id: SnakeId, tail: CellIndex) -> (r: Cell)
        ensures
            r == spec_with_kind(Cell { flags: 0, id: 0, idx: 0 }, KIND_HEAD, id.0, tail.0),
            r.s_kind() == KIND_HEAD,
            !r.s_food(),
            !r.s_hazard(),
            r.id == id.0,
            r.idx == tail.0,
    {
        proof {
            lemma_with_kind(Cell { flags: 0, id: 0, idx: 0 }, KIND_HEAD, id.0, tail.0);
            assert(0u8 & 0x08 == 0 && 0u8 & 0x10 == 0) by (bit_vector);
        }
        Cell { flags: (0u8 & FLAGS_MASK) | KIND_HEAD, id: id.0, idx: tail.0 }
    }

    pub fn set_food(&mut self)
        ensures
            *final(self) == spec_set_food(*old(self)),
    {
        self.flags = self.flags | FOOD_FLAG;
    }

    pub fn clear_food(&mut self)
        ensures
            *final(self) == spec_clear_food(*old(self)),
    {
        self.flags = self.flags & !FOOD_FLAG;
    }

    pub fn set_hazard(&mut self)
        ensures
            *final(self) == spec_set_hazard(*old(self)),
    {
        self.flags = self.flags | HAZARD_FLAG;
    }

    pub fn clear_hazard(&mut self)
        ensures
            *final(self) == spec_clear_hazard(*old(self)),
    {
        self.flags = self.flags & !HAZARD_FLAG;
    }

    /// Clears occupancy only: the square becomes empty while keeping its food
    /// and hazard flags.
    pub fn remove(&mut self)
        ensures
            *final(self) == spec_removed(*old(self)),
    {
        self.flags = self.flags & FLAGS_MASK;
        self.id = 0;
        self.idx = 0;
    }

    /// Rewrites the square as a head, keeping its food and hazard flags.
    pub fn set_head(&mut self, id: SnakeId, tail: CellIndex)
        ensures
            *final(self) == spec_with_kind(*old(self), KIND_HEAD, id.0, tail.0),
    {
        self.flags = (self.flags & FLAGS_MASK) | KIND_HEAD;
        self.id = id.0;
        self.idx = tail.0;
    }

    /// Rewrites the square as a single body segment, keeping its flags.
    pub fn set_body_piece(&mut self, id: SnakeId, next: CellIndex)
        ensures
            *final(self) == spec_with_kind(*old(self), KIND_BODY, id.0, next.0),
    {
        self.flags = (self.flags & FLAGS_MASK) | KIND_BODY;
        self.id = id.0;
        self.idx = next.0;
    }

    /// Rewrites the square as a double-stacked segment, keeping its flags.
    pub fn set_double_stacked_piece(&mut self, id: SnakeId, next: CellIndex)
        ensures
            *final(self) == spec_with_kind(*old(self), KIND_DOUBLE, id.0, next.0),
    {
        self.flags = (self.flags & FLAGS_MASK) | KIND_DOUBLE;
        self.id = id.0;
        self.idx = next.0;
    }

    /// Rewrites the square as a triple-stacked segment, keeping its flags.
    pub fn set_triple_stacked_piece(&mut self, id: SnakeId, next: CellIndex)
        ensures
            *final(self) == spec_with_kind(*old(self), KIND_TRIPLE, id.0, next.0),
    {
        self.flags = (self.flags & FLAGS_MASK) | KIND_TRIPLE;
        self.id = id.0;
        self.idx = next.0;
    }

    pub fn is_empty(&self) -> (r: bool)
        ensures
            r == self.s_empty(),
    {
        self.flags & KIND_MASK == KIND_EMPTY
    }

    pub fn is_food(&self) -> (r: bool)
        ensures
            r == self.s_food(),
    {
        self.flags & FOOD_FLAG != 0
    }

    pub fn is_hazard(&self) -> (r: bool)
        ensures
            r == self.s_hazard(),
    {
        self.flags & HAZARD_FLAG != 0
    }

    pub fn is_head(&self) -> (r: bool)
        ensures
            r == self.s_head(),
    {
        self.flags & KIND_MASK == KIND_HEAD
    }

    pub fn is_body(&self) -> (r: bool)
        ensures
            r == self.s_body(),
    {
        let k = self.flags & KIND_MASK;
        k == KIND_BODY || k == KIND_DOUBLE || k == KIND_TRIPLE
    }

    /// The owning agent, when the square is occupied.
    pub fn get_snake_id(&self) -> (r: Option<SnakeId>)
        ensures
            r == (if self.s_empty() {
                Option::<SnakeId>::None
            } else {
                Option::Some(SnakeId(self.id))
            }),
    {
        if self.flags & KIND_MASK == KIND_EMPTY {
            None
        } else {
            Some(SnakeId(self.id))
        }
    }

    /// The linked index: the next segment toward the head for a body piece,
    /// the tail's index for a head. Meaningful only when occupied.
    pub fn get_idx(&self) -> (r: CellIndex)
        ensures
            r.0 == self.idx,
    {
        CellIndex(self.idx)
    }
}

} // verus!
