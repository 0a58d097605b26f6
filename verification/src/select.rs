use vstd::prelude::*;
use crate::board::{CellBoard, ConvertError, spec_map_ok, cond_any, spec_error};
use crate::game::{BattleSnake, Game, SnakeIDMap, build_snake_id_map, spec_lookup};
use crate::cell::SnakeId;

verus! {

/// 7x7 board with up to 4 agents: the smallest supported tier.
pub type CellBoard4Snakes7x7 = CellBoard<49, 4>;

/// The standard 11x11 game with up to 4 agents.
pub type CellBoard4Snakes11x11 = CellBoard<121, 4>;

/// 15x15 board with up to 8 agents.
pub type CellBoard8Snakes15x15 = CellBoard<225, 8>;

/// The largest selectable board, 25x25, with up to 8 agents.
pub type CellBoard8Snakes25x25 = CellBoard<625, 8>;

/// An absurdly large 50x50 board with up to 16 agents.
pub type CellBoard16Snakes50x50 = CellBoard<2500, 16>;

/// A board sized right for a given game: the smallest capacity tier of the
/// closed family that fits it.
pub enum BestCellBoard {
    Tiny(Box<CellBoard4Snakes7x7>),
    Standard(Box<CellBoard4Snakes11x11>),
    LargestU8(Box<CellBoard8Snakes15x15>),
    Large(Box<CellBoard8Snakes25x25>),
    Silly(Box<CellBoard16Snakes50x50>),
}

/// Which tier `to_best_cell_board` picks for a snapshot, by the larger of
/// its two dimensions and its agent count: the first of the ascending
/// capacity tiers that can contain the game.
pub open spec fn spec_tier(g: Game) -> int {
    let d = if g.width >= g.height {
        g.width as int
    } else {
        g.height as int
    };
    let n = g.snakes@.len() as int;
    if d <= 7 && n <= 4 {
        0
    } else if d <= 11 && n <= 4 {
        1
    } else if d <= 15 && n <= 8 {
        2
    } else if d <= 25 && n <= 8 {
        3
    } else {
        4
    }
}

/// The cell capacity of each tier.
pub open spec fn tier_board_size(t: int) -> int {
    if t == 0 {
        49
    } else if t == 1 {
        121
    } else if t == 2 {
        225
    } else if t == 3 {
        625
    } else {
        2500
    }
}

/// The agent capacity of each tier.
pub open spec fn tier_max_snakes(t: int) -> int {
    if t == 0 {
        4
    } else if t == 1 {
        4
    } else if t == 2 {
        8
    } else if t == 3 {
        8
    } else {
        16
    }
}

/// An id map with the shape `build_snake_id_map` produces for a snapshot:
/// one entry per agent record, its native id under its record index.
pub open spec fn spec_built_map(snakes: Seq<BattleSnake>, m: Seq<(String, SnakeId)>) -> bool {
    m.len() == snakes.len() && forall|k: int|
        0 <= k < m.len() ==> (#[trigger] m[k]).0@ == snakes[k].id@ && m[k].1.0 == k
}

/// Picks the smallest capacity tier that fits the game and builds its board.
/// Inputs too large for the largest tier are outside its domain: callers are
/// expected to have bounded games against that tier.
pub trait ToBestCellBoard: Sized {
    /// Whether some supported capacity tier can hold this game.
    spec fn fits_supported_tier(&self) -> bool;

    fn to_best_cell_board(self) -> (r: Result<BestCellBoard, ConvertError>)
        requires
            self.fits_supported_tier(),
    ;
}

impl ToBestCellBoard for Game {
    open spec fn fits_supported_tier(&self) -> bool {
        self.width <= 50 && self.height <= 50 && self.snakes@.len() <= 16
    }

    /// Builds the id map itself, then converts into the first fitting tier:
    /// a rejection of the snapshot at that tier comes back unchanged, and a
    /// success is that tier's board, built from this snapshot and that map.
    fn to_best_cell_board(self) -> (r: Result<BestCellBoard, ConvertError>)
        ensures
            r.is_err() <==> cond_any(
                self,
                tier_board_size(spec_tier(self)),
                tier_max_snakes(spec_tier(self)),
            ),
            r.is_err() ==> r == Result::<BestCellBoard, ConvertError>::Err(
                spec_error(
                    self,
                    tier_board_size(spec_tier(self)),
                    tier_max_snakes(spec_tier(self)),
                ),
            ),
            r.is_ok() ==> match r.unwrap() {
                BestCellBoard::Tiny(b) => spec_tier(self) == 0 && b.wf() && exists|
                    m: Seq<(String, SnakeId)>,
                |
                    #[trigger] spec_built_map(self.snakes@, m) && CellBoard::<
                        49,
                        4,
                    >::spec_converted(self, m, *b),
                BestCellBoard::Standard(b) => spec_tier(self) == 1 && b.wf() && exists|
                    m: Seq<(String, SnakeId)>,
                |
                    #[trigger] spec_built_map(self.snakes@, m) && CellBoard::<
                        121,
                        4,
                    >::spec_converted(self, m, *b),
                BestCellBoard::LargestU8(b) => spec_tier(self) == 2 && b.wf() && exists|
                    m: Seq<(String, SnakeId)>,
                |
                    #[trigger] spec_built_map(self.snakes@, m) && CellBoard::<
                        225,
                        8,
                    >::spec_converted(self, m, *b),
                BestCellBoard::Large(b) => spec_tier(self) == 3 && b.wf() && exists|
                    m: Seq<(String, SnakeId)>,
                |
                    #[trigger] spec_built_map(self.snakes@, m) && CellBoard::<
                        625,
                        8,
                    >::spec_converted(self, m, *b),
                BestCellBoard::Silly(b) => spec_tier(self) == 4 && b.wf() && exists|
                    m: Seq<(String, SnakeId)>,
                |
                    #[trigger] spec_built_map(self.snakes@, m) && CellBoard::<
                        2500,
                        16,
                    >::spec_converted(self, m, *b),
            },
    {
        let dimension = if self.width >= self.height {
            self.width
        } else {
            self.height
        };
        let num_snakes = self.snakes.len();
        let id_map: SnakeIDMap = build_snake_id_map(&self);
        proof {
            assert(spec_built_map(self.snakes@, id_map@));
        }
        if dimension <= 7 && num_snakes <= 4 {
            proof {
                assert forall|k: int|
                    0 <= k < self.snakes@.len() && self.snakes@[k].health > 0 implies (
                #[trigger] spec_lookup(id_map@, self.snakes@[k].id@)).is_some() && spec_lookup(
                    id_map@,
                    self.snakes@[k].id@,
                ).unwrap().0 < 4 by {
                    lemma_lookup_build(id_map@, self.snakes@, k);
                }
                assert(spec_map_ok(self, id_map@, 4));
            }
            match CellBoard4Snakes7x7::convert_from_game(self, &id_map) {
                Ok(b) => Ok(BestCellBoard::Tiny(Box::new(b))),
                Err(e) => Err(e),
            }
        } else if dimension <= 11 && num_snakes <= 4 {
            proof {
                assert forall|k: int|
                    0 <= k < self.snakes@.len() && self.snakes@[k].health > 0 implies (
                #[trigger] spec_lookup(id_map@, self.snakes@[k].id@)).is_some() && spec_lookup(
                    id_map@,
                    self.snakes@[k].id@,
                ).unwrap().0 < 4 by {
                    lemma_lookup_build(id_map@, self.snakes@, k);
                }
                assert(spec_map_ok(self, id_map@, 4));
            }
            match CellBoard4Snakes11x11::convert_from_game(self, &id_map) {
                Ok(b) => Ok(BestCellBoard::Standard(Box::new(b))),
                Err(e) => Err(e),
            }
        } else if dimension <= 15 && num_snakes <= 8 {
            proof {
                assert forall|k: int|
                    0 <= k < self.snakes@.len() && self.snakes@[k].health > 0 implies (
                #[trigger] spec_lookup(id_map@, self.snakes@[k].id@)).is_some() && spec_lookup(
                    id_map@,
                    self.snakes@[k].id@,
                ).unwrap().0 < 8 by {
                    lemma_lookup_build(id_map@, self.snakes@, k);
                }
                assert(spec_map_ok(self, id_map@, 8));
            }
            match CellBoard8Snakes15x15::convert_from_game(self, &id_map) {
                Ok(b) => Ok(BestCellBoard::LargestU8(Box::new(b))),
                Err(e) => Err(e),
            }
        } else if dimension <= 25 && num_snakes <= 8 {
            proof {
                assert forall|k: int|
                    0 <= k < self.snakes@.len() && self.snakes@[k].health > 0 implies (
                #[trigger] spec_lookup(id_map@, self.snakes@[k].id@)).is_some() && spec_lookup(
                    id_map@,
                    self.snakes@[k].id@,
                ).unwrap().0 < 8 by {
                    lemma_lookup_build(id_map@, self.snakes@, k);
                }
                assert(spec_map_ok(self, id_map@, 8));
            }
            match CellBoard8Snakes25x25::convert_from_game(self, &id_map) {
                Ok(b) => Ok(BestCellBoard::Large(Box::new(b))),
                Err(e) => Err(e),
            }
        } else {
            proof {
                assert forall|k: int|
                    0 <= k < self.snakes@.len() && self.snakes@[k].health > 0 implies (
                #[trigger] spec_lookup(id_map@, self.snakes@[k].id@)).is_some() && spec_lookup(
                    id_map@,
                    self.snakes@[k].id@,
                ).unwrap().0 < 16 by {
                    lemma_lookup_build(id_map@, self.snakes@, k);
                }
                assert(spec_map_ok(self, id_map@, 16));
            }
            match CellBoard16Snakes50x50::convert_from_game(self, &id_map) {
                Ok(b) => Ok(BestCellBoard::Silly(Box::new(b))),
                Err(e) => Err(e),
            }
        }
    }
}

/// A map built by `build_snake_id_map` answers every agent's id with a dense
/// id below the agent count: first-match lookup finds index `k` or an
/// earlier entry.
proof fn lemma_lookup_build(m: Seq<(String, SnakeId)>, snakes: Seq<BattleSnake>, k: int)
    requires
        m.len() == snakes.len(),
        forall|t: int| 0 <= t < m.len() ==> (#[trigger] m[t]).0@ == snakes[t].id@ && m[t].1.0 == t,
        0 <= k < snakes.len(),
        snakes.len() <= 255,
    ensures
        spec_lookup(m, snakes[k].id@).is_some(),
        (spec_lookup(m, snakes[k].id@).unwrap().0 as int) < snakes.len(),
{
    assert((m[k]).0@ == snakes[k].id@);
    assert(exists|t: int| 0 <= t < m.len() && (#[trigger] m[t]).0@ == snakes[k].id@);
    lemma_lookup_prefix(m, snakes[k].id@, 0);
    assert(m.skip(0) =~= m);
}

/// First-match lookup over a suffix of such a map either finds an entry
/// (whose dense id is its index) or runs past the end; since some entry
/// matches, it finds one.
proof fn lemma_lookup_prefix(m: Seq<(String, SnakeId)>, id: Seq<char>, j: int)
    requires
        0 <= j <= m.len(),
        exists|t: int| j <= t < m.len() && (#[trigger] m[t]).0@ == id,
        forall|t: int| 0 <= t < m.len() ==> ((#[trigger] m[t]).1.0 as int) == t,
        m.len() <= 255,
    ensures
        spec_lookup(m.skip(j), id).is_some(),
        (spec_lookup(m.skip(j), id).unwrap().0 as int) < m.len(),
    decreases m.len() - j,
{
    let tail = m.skip(j);
    assert(tail.len() > 0);
    assert(tail[0] == m[j]);
    if m[j].0@ == id {
    } else {
        let tw = choose|t: int| j <= t < m.len() && (#[trigger] m[t]).0@ == id;
        assert(tw > j);
        lemma_lookup_prefix(m, id, j + 1);
        assert(tail.drop_first() =~= m.skip(j + 1));
    }
}

} // verus!
