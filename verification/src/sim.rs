use vstd::prelude::*;
use crate::cell::{
    Cell, CellIndex, Position, SnakeId, Move, spec_with_kind, spec_removed, spec_set_food,
    spec_set_hazard, spec_clear_food, spec_clear_hazard, spec_cell_index, spec_position,
    lemma_with_kind, lemma_removed, lemma_flag_ops, lemma_cell_index_round_trip, KIND_EMPTY,
    KIND_BODY, KIND_DOUBLE, KIND_TRIPLE, KIND_HEAD,
};
use crate::board::{CellBoard, in_grid, lemma_cidx_inj};
use vstd::arithmetic::div_mod::{lemma_fundamental_div_mod, lemma_fundamental_div_mod_converse, lemma_mod_bound};

verus! {

broadcast use lemma_with_kind, lemma_removed, lemma_flag_ops;

/// The health an agent is restored to when it eats.
pub const MAX_HEALTH: u8 = 100;

/// Where agent `i`'s head lands if it plays `mv`.
pub open spec fn s_new_pos<const BS: usize, const MS: usize>(
    b: CellBoard<BS, MS>,
    i: int,
    mv: Move,
) -> Position {
    CellBoard::<BS, MS>::spec_step(spec_position(b.heads@[i].0, b.actual_width), mv)
}

/// Whether that landing square is off the grid: eliminated by geometry.
pub open spec fn s_off<const BS: usize, const MS: usize>(
    b: CellBoard<BS, MS>,
    i: int,
    mv: Move,
) -> bool {
    b.spec_off_board(s_new_pos(b, i, mv))
}

/// The landing square's linear index (meaningful only when on the grid).
pub open spec fn s_nidx<const BS: usize, const MS: usize>(
    b: CellBoard<BS, MS>,
    i: int,
    mv: Move,
) -> int {
    spec_cell_index(s_new_pos(b, i, mv), b.actual_width)
}

/// Whether the agent eats this tick: its head lands on a food square.
pub open spec fn s_ate<const BS: usize, const MS: usize>(
    b: CellBoard<BS, MS>,
    i: int,
    mv: Move,
) -> bool {
    !s_off(b, i, mv) && b.cells@[s_nidx(b, i, mv)].s_food()
}

/// Whether the landing square is hazardous.
pub open spec fn s_hz<const BS: usize, const MS: usize>(
    b: CellBoard<BS, MS>,
    i: int,
    mv: Move,
) -> bool {
    !s_off(b, i, mv) && b.cells@[s_nidx(b, i, mv)].s_hazard()
}

/// Health after the tick: eating restores to full; otherwise one point for
/// the tick plus the board's hazard damage if the landing square is
/// hazardous, floored at zero.
pub open spec fn s_new_health<const BS: usize, const MS: usize>(
    b: CellBoard<BS, MS>,
    i: int,
    mv: Move,
) -> int {
    if s_ate(b, i, mv) {
        MAX_HEALTH as int
    } else {
        let d = b.healths@[i] - 1 - (if s_hz(b, i, mv) {
            b.hazard_damage as int
        } else {
            0
        });
        if d < 0 {
            0
        } else {
            d
        }
    }
}

/// Survives geometry and starvation: alive, on the grid, health above zero.
pub open spec fn s_surv1<const BS: usize, const MS: usize>(
    b: CellBoard<BS, MS>,
    i: int,
    mv: Move,
) -> bool {
    b.s_alive(i) && !s_off(b, i, mv) && s_new_health(b, i, mv) > 0
}

/// Length after the tick: eating grows the agent by exactly one segment
/// (saturating at the counter's maximum).
pub open spec fn s_new_len<const BS: usize, const MS: usize>(
    b: CellBoard<BS, MS>,
    i: int,
    mv: Move,
) -> int {
    if s_ate(b, i, mv) && b.lengths@[i] < u16::MAX {
        b.lengths@[i] + 1
    } else {
        b.lengths@[i] as int
    }
}

/// The tail square of agent `i`: a spawn triple stack is its own tail,
/// otherwise the head cell links straight to it.
pub open spec fn s_tail<const BS: usize, const MS: usize>(b: CellBoard<BS, MS>, i: int) -> int {
    if b.cells@[b.heads@[i].0 as int].s_kind() == KIND_TRIPLE {
        b.heads@[i].0 as int
    } else {
        b.cells@[b.heads@[i].0 as int].idx as int
    }
}

/// How many of agent `i`'s body segments square `c` holds after the body
/// advance: its current stack there, less the tail segment it vacates when
/// it does not eat. The old head counts (it becomes body); the new head does
/// not (head-to-head is resolved separately).
pub open spec fn s_bodyweight<const BS: usize, const MS: usize>(
    b: CellBoard<BS, MS>,
    i: int,
    mv: Move,
    c: int,
) -> int {
    if !b.cells@[c].s_empty() && b.cells@[c].id as int == i {
        b.cells@[c].s_mult() - (if !s_ate(b, i, mv) && s_tail(b, i) == c {
            1int
        } else {
            0int
        })
    } else {
        0
    }
}

/// Eliminated by running into a body: the landing square still holds a body
/// segment of some agent that survived geometry and starvation.
pub open spec fn s_body_collision<const BS: usize, const MS: usize>(
    b: CellBoard<BS, MS>,
    moves: Seq<Move>,
    i: int,
) -> bool {
    exists|j: int|
        0 <= j < MS as int && #[trigger] s_surv1(b, j, moves[j]) && s_bodyweight(
            b,
            j,
            moves[j],
            s_nidx(b, i, moves[i]),
        ) > 0
}

/// Loses a head-to-head: some other surviving agent lands on the same square
/// with resulting length at least as great.
pub open spec fn s_hth<const BS: usize, const MS: usize>(
    b: CellBoard<BS, MS>,
    moves: Seq<Move>,
    i: int,
) -> bool {
    exists|j: int|
        0 <= j < MS as int && j != i && #[trigger] s_surv1(b, j, moves[j]) && s_nidx(b, j, moves[j])
            == s_nidx(b, i, moves[i]) && s_new_len(b, j, moves[j]) >= s_new_len(b, i, moves[i])
}

/// Survives the whole tick.
pub open spec fn s_survives<const BS: usize, const MS: usize>(
    b: CellBoard<BS, MS>,
    moves: Seq<Move>,
    i: int,
) -> bool {
    s_surv1(b, i, moves[i]) && !s_body_collision(b, moves, i) && !s_hth(b, moves, i)
}

/// A food square some live agent's head lands on this tick: its flag is
/// cleared from the board.
pub open spec fn s_eaten_at<const BS: usize, const MS: usize>(
    b: CellBoard<BS, MS>,
    moves: Seq<Move>,
    c: int,
) -> bool {
    b.cells@[c].s_food() && exists|i: int|
        0 <= i < MS as int && #[trigger] b.s_alive(i) && !s_off(b, i, moves[i]) && s_nidx(
            b,
            i,
            moves[i],
        ) == c
}

/// The tail square's index after the advance, for the new head cell's link.
pub open spec fn s_new_tail<const BS: usize, const MS: usize>(
    b: CellBoard<BS, MS>,
    i: int,
    mv: Move,
) -> int {
    let t = s_tail(b, i);
    if s_ate(b, i, mv) {
        t
    } else {
        let tc = b.cells@[t];
        if !tc.s_empty() && tc.id as int == i {
            if tc.s_kind() == KIND_BODY {
                tc.idx as int
            } else if tc.s_kind() == KIND_HEAD {
                s_nidx(b, i, mv)
            } else {
                t
            }
        } else {
            t
        }
    }
}

/// Board cells after non-survivors are zeroed out, food and hazard flags
/// kept.
pub open spec fn cell_cleared<const BS: usize, const MS: usize>(
    b: CellBoard<BS, MS>,
    moves: Seq<Move>,
    c: int,
) -> Cell {
    let old = b.cells@[c];
    if !old.s_empty() && (old.id as int) < MS as int && !s_survives(b, moves, old.id as int) {
        spec_removed(old)
    } else {
        old
    }
}

/// ... then each surviving non-eater's tail segment vacated.
pub open spec fn cell_vacated<const BS: usize, const MS: usize>(
    b: CellBoard<BS, MS>,
    moves: Seq<Move>,
    bound: int,
    c: int,
) -> Cell {
    let c1 = cell_cleared(b, moves, c);
    let i = c1.id as int;
    if !c1.s_empty() && i < bound && s_survives(b, moves, i) && !s_ate(b, i, moves[i]) && s_tail(
        b,
        i,
    ) == c {
        if c1.s_kind() == KIND_BODY {
            spec_removed(c1)
        } else if c1.s_kind() == KIND_DOUBLE {
            spec_with_kind(c1, KIND_BODY, c1.id, c1.idx)
        } else if c1.s_kind() == KIND_TRIPLE {
            spec_with_kind(
                c1,
                KIND_DOUBLE,
                c1.id,
                if c == b.heads@[i].0 as int {
                    s_nidx(b, i, moves[i]) as u16
                } else {
                    c1.idx
                },
            )
        } else {
            spec_removed(c1)
        }
    } else {
        c1
    }
}

/// ... then each survivor's old head cell rewritten as a body segment (or a
/// re-linked stack) pointing at the new head square.
pub open spec fn cell_advanced<const BS: usize, const MS: usize>(
    b: CellBoard<BS, MS>,
    moves: Seq<Move>,
    bound: int,
    c: int,
) -> Cell {
    let c2 = cell_vacated(b, moves, MS as int, c);
    let i = c2.id as int;
    if !c2.s_empty() && i < bound && s_survives(b, moves, i) && b.heads@[i].0 as int == c {
        if c2.s_kind() == KIND_HEAD {
            spec_with_kind(c2, KIND_BODY, c2.id, s_nidx(b, i, moves[i]) as u16)
        } else if c2.s_kind() == KIND_TRIPLE {
            spec_with_kind(c2, KIND_TRIPLE, c2.id, s_nidx(b, i, moves[i]) as u16)
        } else {
            c2
        }
    } else {
        c2
    }
}

/// ... then each survivor's new head written.
pub open spec fn cell_headed<const BS: usize, const MS: usize>(
    b: CellBoard<BS, MS>,
    moves: Seq<Move>,
    bound: int,
    c: int,
) -> Cell {
    let c3 = cell_advanced(b, moves, MS as int, c);
    if exists|i: int|
        0 <= i < bound && #[trigger] s_survives(b, moves, i) && s_nidx(b, i, moves[i]) == c {
        let i = choose|i: int|
            0 <= i < bound && #[trigger] s_survives(b, moves, i) && s_nidx(b, i, moves[i]) == c;
        spec_with_kind(c3, KIND_HEAD, i as u8, s_new_tail(b, i, moves[i]) as u16)
    } else {
        c3
    }
}

/// ... and finally consumed food flags cleared: the cell the next board
/// holds at `c`.
pub open spec fn cell_next<const BS: usize, const MS: usize>(
    b: CellBoard<BS, MS>,
    moves: Seq<Move>,
    c: int,
) -> Cell {
    let c4 = cell_headed(b, moves, MS as int, c);
    if s_eaten_at(b, moves, c) {
        spec_clear_food(c4)
    } else {
        c4
    }
}

/// The whole tick relation: scalars and cells of the next board, pinned to
/// the simultaneous-move semantics of the current one.
pub open spec fn tick_rel<const BS: usize, const MS: usize>(
    b: CellBoard<BS, MS>,
    moves: Seq<Move>,
    r: CellBoard<BS, MS>,
) -> bool {
    &&& r.actual_width == b.actual_width
    &&& r.actual_height == b.actual_height
    &&& r.hazard_damage == b.hazard_damage
    &&& r.cells@.len() == BS
    &&& r.healths@.len() == MS
    &&& r.heads@.len() == MS
    &&& r.lengths@.len() == MS
    &&& forall|i: int|
        0 <= i < MS as int ==> (#[trigger] r.healths@[i]) as int == (if s_survives(b, moves, i) {
            s_new_health(b, i, moves[i])
        } else {
            0
        })
    &&& forall|i: int|
        0 <= i < MS as int ==> (#[trigger] r.lengths@[i]) as int == (if s_survives(b, moves, i) {
            s_new_len(b, i, moves[i])
        } else {
            0
        })
    &&& forall|i: int|
        0 <= i < MS as int ==> (#[trigger] r.heads@[i]).0 as int == (if s_survives(b, moves, i) {
            s_nidx(b, i, moves[i])
        } else {
            0
        })
    &&& forall|c: int| 0 <= c < BS ==> (#[trigger] r.cells@[c]) == cell_next(b, moves, c)
}

/// Two distinct survivors never land on the same square: had they, the
/// shorter (or both, on a tie) would have lost the head-to-head.
pub proof fn lemma_unique_heads<const BS: usize, const MS: usize>(
    b: CellBoard<BS, MS>,
    moves: Seq<Move>,
    i: int,
    j: int,
)
    requires
        0 <= i < MS as int,
        0 <= j < MS as int,
        i != j,
        s_survives(b, moves, i),
        s_survives(b, moves, j),
    ensures
        s_nidx(b, i, moves[i]) != s_nidx(b, j, moves[j]),
{
    if s_nidx(b, i, moves[i]) == s_nidx(b, j, moves[j]) {
        if s_new_len(b, i, moves[i]) >= s_new_len(b, j, moves[j]) {
            assert(s_hth(b, moves, j));
        } else {
            assert(s_hth(b, moves, i));
        }
    }
}

/// A survivor's landing square lies on the grid, so its index is in range.
pub proof fn lemma_nidx_bound<const BS: usize, const MS: usize>(
    b: CellBoard<BS, MS>,
    i: int,
    mv: Move,
)
    requires
        b.wf(),
        !s_off(b, i, mv),
    ensures
        0 <= s_nidx(b, i, mv) < b.actual_width * b.actual_height,
        s_nidx(b, i, mv) <= 65024,
{
    let p = s_new_pos(b, i, mv);
    assert(in_grid(p, b.actual_width, b.actual_height));
    lemma_cidx_inj(p, p, b.actual_width, b.actual_height);
    assert(b.actual_width * b.actual_height <= 65025) by (nonlinear_arith)
        requires
            b.actual_width <= 255,
            b.actual_height <= 255,
    ;
}

} // verus!
verus! {

impl<const BS: usize, const MS: usize> CellBoard<BS, MS> {
    /// Advances the board one tick, given one candidate move per agent slot
    /// (entries for dead slots are ignored). All agents move simultaneously:
    /// geometry, food, health, and collisions are all judged against the
    /// current board, then the outcome is committed to a fresh board.
    #[verifier::loop_isolation(false)]
    #[verifier::rlimit(100)]
    pub fn apply_moves(&self, moves: &Vec<Move>) -> (r: Self)
        requires
            self.wf(),
            moves@.len() == MS as int,
            MS as int <= 256,
        ensures
            tick_rel(*self, moves@, r),
            r.wf(),
    {
        let b = self;
        let ghost mv = moves@;
        let w = b.actual_width;
        let h = b.actual_height;
        proof {
            assert(w as int * h as int <= 65025) by (nonlinear_arith)
                requires
                    w <= 255,
                    h <= 255,
            ;
        }

        // Per-agent facts, all read from the immutable current board.
        let mut off_v: Vec<bool> = Vec::new();
        let mut nidx_v: Vec<u16> = Vec::new();
        let mut ate_v: Vec<bool> = Vec::new();
        let mut nh_v: Vec<u8> = Vec::new();
        let mut nl_v: Vec<u16> = Vec::new();
        let mut s1_v: Vec<bool> = Vec::new();
        let mut tail_v: Vec<u16> = Vec::new();
        let mut ntail_v: Vec<u16> = Vec::new();
        let mut i: usize = 0;
        while i < MS
            invariant
                0 <= i <= MS,
                off_v@.len() == i as int,
                nidx_v@.len() == i as int,
                ate_v@.len() == i as int,
                nh_v@.len() == i as int,
                nl_v@.len() == i as int,
                s1_v@.len() == i as int,
                tail_v@.len() == i as int,
                ntail_v@.len() == i as int,
                forall|t: int|
                    0 <= t < i as int && b.s_alive(t) ==> (#[trigger] off_v@[t]) == s_off(
                        *b,
                        t,
                        mv[t],
                    ),
                forall|t: int|
                    0 <= t < i as int && b.s_alive(t) && !s_off(*b, t, mv[t]) ==> (
                    #[trigger] nidx_v@[t]) as int == s_nidx(*b, t, mv[t]),
                forall|t: int| 0 <= t < i as int ==> (#[trigger] ate_v@[t]) == (b.s_alive(t)
                    && s_ate(*b, t, mv[t])),
                forall|t: int|
                    0 <= t < i as int && b.s_alive(t) && !s_off(*b, t, mv[t]) ==> (
                    #[trigger] nh_v@[t]) as int == s_new_health(*b, t, mv[t]),
                forall|t: int|
                    0 <= t < i as int && b.s_alive(t) ==> (#[trigger] nl_v@[t]) as int == s_new_len(
                        *b,
                        t,
                        mv[t],
                    ),
                forall|t: int| 0 <= t < i as int ==> (#[trigger] s1_v@[t]) == s_surv1(*b, t, mv[t]),
                forall|t: int|
                    0 <= t < i as int && b.s_alive(t) ==> (#[trigger] tail_v@[t]) as int == s_tail(
                        *b,
                        t,
                    ),
                forall|t: int|
                    0 <= t < i as int && s_surv1(*b, t, mv[t]) ==> (#[trigger] ntail_v@[t]) as int
                        == s_new_tail(*b, t, mv[t]),
            decreases MS - i,
        {
            let m = moves[i];
            if b.healths[i] > 0 {
                let head = b.heads[i];
                let hp = head.into_position(w);
                proof {
                    lemma_cell_index_round_trip(head, w);
                    assert(hp.y <= 65535) by (nonlinear_arith)
                        requires
                            hp.y >= 0,
                            hp.x >= 0,
                            w >= 1,
                            hp.y * w + hp.x <= 65535,
                    ;
                }
                let v = m.to_vector();
                let np = hp.add_vec(v);
                proof {
                    assert(Self::spec_step(hp, m) == np);
                }
                let hc = b.cells[head.0 as usize];
                let tl: u16 = if hc.flags & crate::cell::KIND_MASK == KIND_TRIPLE {
                    head.0
                } else {
                    hc.idx
                };
                let off = b.off_board(np);
                off_v.push(off);
                if off {
                    nidx_v.push(0);
                    ate_v.push(false);
                    nh_v.push(0);
                    nl_v.push(b.lengths[i]);
                    s1_v.push(false);
                    tail_v.push(tl);
                    ntail_v.push(0);
                    proof {
                        assert(!s_ate(*b, i as int, m));
                        assert(s_new_len(*b, i as int, m) == b.lengths@[i as int] as int);
                    }
                } else {
                    proof {
                        lemma_nidx_bound(*b, i as int, m);
                        assert(in_grid(np, w, h));
                        lemma_cidx_inj(np, np, w, h);
                    }
                    let ci = CellIndex::new(np, w);
                    nidx_v.push(ci.0);
                    let target = b.cells[ci.0 as usize];
                    let ate = target.is_food();
                    ate_v.push(ate);
                    let nh: u8 = if ate {
                        MAX_HEALTH
                    } else {
                        let mut d: i32 = b.healths[i] as i32 - 1;
                        if target.is_hazard() {
                            d = d - b.hazard_damage as i32;
                        }
                        if d < 0 {
                            0
                        } else {
                            d as u8
                        }
                    };
                    nh_v.push(nh);
                    let ln = b.lengths[i];
                    let nl: u16 = if ate && ln < u16::MAX {
                        ln + 1
                    } else {
                        ln
                    };
                    nl_v.push(nl);
                    s1_v.push(nh > 0);
                    let t: u16 = tl;
                    tail_v.push(t);
                    proof {
                        assert((t as int) < b.actual_width * b.actual_height);
                    }
                    let tc = b.cells[t as usize];
                    let nt: u16 = if ate {
                        t
                    } else if !tc.is_empty() && tc.id == i as u8 {
                        let k = tc.flags & crate::cell::KIND_MASK;
                        if k == KIND_BODY {
                            tc.idx
                        } else if k == KIND_HEAD {
                            ci.0
                        } else {
                            t
                        }
                    } else {
                        t
                    };
                    ntail_v.push(nt);
                }
            } else {
                off_v.push(false);
                nidx_v.push(0);
                ate_v.push(false);
                nh_v.push(0);
                nl_v.push(0);
                s1_v.push(false);
                tail_v.push(0);
                ntail_v.push(0);
                proof {
                    assert(!s_surv1(*b, i as int, mv[i as int]));
                }
            }
            i += 1;
        }

        // Collision resolution, judged for every agent against the same
        // pre-move facts.
        let mut surv_v: Vec<bool> = Vec::new();
        let mut i: usize = 0;
        while i < MS
            invariant
                0 <= i <= MS,
                surv_v@.len() == i as int,
                forall|t: int|
                    0 <= t < i as int ==> (#[trigger] surv_v@[t]) == s_survives(*b, mv, t),
            decreases MS - i,
        {
            let mut alive_out = false;
            if s1_v[i] {
                proof {
                    lemma_nidx_bound(*b, i as int, mv[i as int]);
                }
                let my_nidx = nidx_v[i];
                let my_nl = nl_v[i];
                let mut bcol = false;
                let mut hth = false;
                let mut j: usize = 0;
                while j < MS
                    invariant
                        0 <= j <= MS,
                        s_surv1(*b, i as int, mv[i as int]),
                        my_nidx as int == s_nidx(*b, i as int, mv[i as int]),
                        my_nl as int == s_new_len(*b, i as int, mv[i as int]),
                        bcol == exists|t: int|
                            0 <= t < j as int && #[trigger] s_surv1(*b, t, mv[t]) && s_bodyweight(
                                *b,
                                t,
                                mv[t],
                                s_nidx(*b, i as int, mv[i as int]),
                            ) > 0,
                        hth == exists|t: int|
                            0 <= t < j as int && t != i as int && #[trigger] s_surv1(*b, t, mv[t])
                                && s_nidx(*b, t, mv[t]) == s_nidx(*b, i as int, mv[i as int])
                                && s_new_len(*b, t, mv[t]) >= s_new_len(*b, i as int, mv[i as int]),
                    decreases MS - j,
                {
                    if s1_v[j] {
                        // body collision against agent j's post-advance body
                        let cme = b.cells[my_nidx as usize];
                        if !cme.is_empty() && cme.id == j as u8 {
                            let k = cme.flags & crate::cell::KIND_MASK;
                            let mult: u16 = if k == KIND_BODY || k == KIND_HEAD {
                                1
                            } else if k == KIND_DOUBLE {
                                2
                            } else if k == KIND_TRIPLE {
                                3
                            } else {
                                0
                            };
                            let vac: u16 = if !ate_v[j] && tail_v[j] == my_nidx {
                                1
                            } else {
                                0
                            };
                            if mult > vac {
                                bcol = true;
                            }
                        }
                        if j != i && nidx_v[j] == my_nidx && nl_v[j] >= my_nl {
                            hth = true;
                        }
                    }
                    proof {
                        if s_surv1(*b, j as int, mv[j as int]) {
                            assert((s_bodyweight(
                                *b,
                                j as int,
                                mv[j as int],
                                s_nidx(*b, i as int, mv[i as int]),
                            ) > 0) == (!b.cells@[my_nidx as int].s_empty()
                                && b.cells@[my_nidx as int].id as int == j as int && (
                            b.cells@[my_nidx as int].s_mult() - (if !s_ate(*b, j as int, mv[j as int])
                                && s_tail(*b, j as int) == my_nidx as int {
                                1int
                            } else {
                                0int
                            })) > 0));
                        }
                    }
                    j += 1;
                }
                alive_out = !bcol && !hth;
                proof {
                    assert(bcol == s_body_collision(*b, mv, i as int));
                    assert(hth == s_hth(*b, mv, i as int));
                }
            } else {
                proof {
                    assert(!s_survives(*b, mv, i as int));
                }
            }
            surv_v.push(alive_out);
            i += 1;
        }

        // Commit: copy the cells, zero out the fallen, vacate tails, convert
        // old heads, write new heads, clear eaten food.
        let mut cells: Vec<Cell> = Vec::new();
        let mut c: usize = 0;
        while c < BS
            invariant
                0 <= c <= BS,
                cells@.len() == c as int,
                forall|t: int| 0 <= t < c as int ==> (#[trigger] cells@[t]) == b.cells@[t],
            decreases BS - c,
        {
            cells.push(b.cells[c]);
            c += 1;
        }

        let mut c: usize = 0;
        while c < BS
            invariant
                0 <= c <= BS,
                cells@.len() == BS,
                forall|t: int|
                    0 <= t < c as int ==> (#[trigger] cells@[t]) == cell_cleared(*b, mv, t),
                forall|t: int| c as int <= t < BS ==> (#[trigger] cells@[t]) == b.cells@[t],
            decreases BS - c,
        {
            let cur = cells[c];
            if !cur.is_empty() {
                proof {
                    assert((cur.id as int) < MS as int);
                }
                if !surv_v[cur.id as usize] {
                    let mut tmp = cur;
                    tmp.remove();
                    cells.set(c, tmp);
                }
            }
            c += 1;
        }

        let mut i: usize = 0;
        while i < MS
            invariant
                0 <= i <= MS,
                cells@.len() == BS,
                forall|t: int|
                    0 <= t < BS ==> (#[trigger] cells@[t]) == cell_vacated(*b, mv, i as int, t),
            decreases MS - i,
        {
            if surv_v[i] && !ate_v[i] {
                let t = tail_v[i];
                proof {
                    assert(b.s_alive(i as int));
                    assert(s_tail(*b, i as int) < b.actual_width * b.actual_height);
                }
                let cur = cells[t as usize];
                if !cur.is_empty() && cur.id == i as u8 {
                    let k = cur.flags & crate::cell::KIND_MASK;
                    let mut tmp = cur;
                    if k == KIND_DOUBLE {
                        tmp.set_body_piece(SnakeId(i as u8), CellIndex(cur.idx));
                    } else if k == KIND_TRIPLE {
                        let link: u16 = if t == b.heads[i].0 {
                            nidx_v[i]
                        } else {
                            cur.idx
                        };
                        tmp.set_double_stacked_piece(SnakeId(i as u8), CellIndex(link));
                    } else {
                        tmp.remove();
                    }
                    cells.set(t as usize, tmp);
                }
            }
            proof {
                assert forall|t: int| 0 <= t < BS implies (#[trigger] cells@[t]) == cell_vacated(
                    *b,
                    mv,
                    i + 1,
                    t,
                ) by {
                    let c1 = cell_cleared(*b, mv, t);
                }
            }
            i += 1;
        }

        let mut i: usize = 0;
        while i < MS
            invariant
                0 <= i <= MS,
                cells@.len() == BS,
                forall|t: int|
                    0 <= t < BS ==> (#[trigger] cells@[t]) == cell_advanced(*b, mv, i as int, t),
            decreases MS - i,
        {
            if surv_v[i] {
                let hcell = b.heads[i];
                let cur = cells[hcell.0 as usize];
                if !cur.is_empty() && cur.id == i as u8 {
                    let k = cur.flags & crate::cell::KIND_MASK;
                    let mut tmp = cur;
                    if k == KIND_HEAD {
                        tmp.set_body_piece(SnakeId(i as u8), CellIndex(nidx_v[i]));
                        cells.set(hcell.0 as usize, tmp);
                    } else if k == KIND_TRIPLE {
                        tmp.set_triple_stacked_piece(SnakeId(i as u8), CellIndex(nidx_v[i]));
                        cells.set(hcell.0 as usize, tmp);
                    }
                }
            }
            proof {
                assert forall|t: int| 0 <= t < BS implies (#[trigger] cells@[t]) == cell_advanced(
                    *b,
                    mv,
                    i + 1,
                    t,
                ) by {
                    let c2 = cell_vacated(*b, mv, MS as int, t);
                }
            }
            i += 1;
        }

        let mut i: usize = 0;
        while i < MS
            invariant
                0 <= i <= MS,
                cells@.len() == BS,
                forall|t: int|
                    0 <= t < BS ==> (#[trigger] cells@[t]) == cell_headed(*b, mv, i as int, t),
            decreases MS - i,
        {
            if surv_v[i] {
                let ci = nidx_v[i];
                proof {
                    lemma_nidx_bound(*b, i as int, mv[i as int]);
                }
                let mut tmp = cells[ci as usize];
                tmp.set_head(SnakeId(i as u8), CellIndex(ntail_v[i]));
                cells.set(ci as usize, tmp);
            }
            proof {
                assert forall|t: int| 0 <= t < BS implies (#[trigger] cells@[t]) == cell_headed(
                    *b,
                    mv,
                    i + 1,
                    t,
                ) by {
                    if exists|ii: int|
                        0 <= ii < i + 1 && #[trigger] s_survives(*b, mv, ii) && s_nidx(
                            *b,
                            ii,
                            mv[ii],
                        ) == t {
                        let iw = choose|ii: int|
                            0 <= ii < i + 1 && #[trigger] s_survives(*b, mv, ii) && s_nidx(
                                *b,
                                ii,
                                mv[ii],
                            ) == t;
                        let iw2 = choose|ii: int|
                            0 <= ii < MS as int && #[trigger] s_survives(*b, mv, ii) && s_nidx(
                                *b,
                                ii,
                                mv[ii],
                            ) == t;
                        if iw != iw2 {
                            lemma_unique_heads(*b, mv, iw, iw2);
                        }
                        if iw != i as int {
                            assert(exists|ii: int|
                                0 <= ii < i as int && #[trigger] s_survives(*b, mv, ii) && s_nidx(
                                    *b,
                                    ii,
                                    mv[ii],
                                ) == t);
                        } else {
                            if s_survives(*b, mv, i as int) {
                            }
                        }
                    }
                }
            }
            i += 1;
        }

        let mut i: usize = 0;
        while i < MS
            invariant
                0 <= i <= MS,
                cells@.len() == BS,
                forall|t: int|
                    0 <= t < BS && (exists|ii: int|
                        0 <= ii < i as int && #[trigger] b.s_alive(ii) && !s_off(*b, ii, mv[ii])
                            && s_nidx(*b, ii, mv[ii]) == t && b.cells@[t].s_food()) ==> (
                    #[trigger] cells@[t]) == spec_clear_food(cell_headed(*b, mv, MS as int, t)),
                forall|t: int|
                    0 <= t < BS && !(exists|ii: int|
                        0 <= ii < i as int && #[trigger] b.s_alive(ii) && !s_off(*b, ii, mv[ii])
                            && s_nidx(*b, ii, mv[ii]) == t && b.cells@[t].s_food()) ==> (
                    #[trigger] cells@[t]) == cell_headed(*b, mv, MS as int, t),
            decreases MS - i,
        {
            if ate_v[i] {
                let ci = nidx_v[i];
                proof {
                    lemma_nidx_bound(*b, i as int, mv[i as int]);
                }
                let mut tmp = cells[ci as usize];
                tmp.clear_food();
                cells.set(ci as usize, tmp);
                proof {
                    let t0 = ci as int;
                    let c4 = cell_headed(*b, mv, MS as int, t0);
                    assert(spec_clear_food(spec_clear_food(c4)) == spec_clear_food(c4)) by {
                        let f = c4.flags;
                        assert((f & !0x08) & !0x08 == f & !0x08) by (bit_vector);
                    }
                }
            }
            i += 1;
        }
        proof {
            assert forall|t: int| 0 <= t < BS implies (#[trigger] cells@[t]) == cell_next(
                *b,
                mv,
                t,
            ) by {}
        }

        // Committed scalars.
        let mut healths: Vec<u8> = Vec::new();
        let mut heads: Vec<CellIndex> = Vec::new();
        let mut lengths: Vec<u16> = Vec::new();
        let mut i: usize = 0;
        while i < MS
            invariant
                0 <= i <= MS,
                healths@.len() == i as int,
                heads@.len() == i as int,
                lengths@.len() == i as int,
                forall|t: int|
                    0 <= t < i as int ==> (#[trigger] healths@[t]) as int == (if s_survives(
                        *b,
                        mv,
                        t,
                    ) {
                        s_new_health(*b, t, mv[t])
                    } else {
                        0
                    }),
                forall|t: int|
                    0 <= t < i as int ==> (#[trigger] lengths@[t]) as int == (if s_survives(
                        *b,
                        mv,
                        t,
                    ) {
                        s_new_len(*b, t, mv[t])
                    } else {
                        0
                    }),
                forall|t: int|
                    0 <= t < i as int ==> (#[trigger] heads@[t]).0 as int == (if s_survives(
                        *b,
                        mv,
                        t,
                    ) {
                        s_nidx(*b, t, mv[t])
                    } else {
                        0
                    }),
            decreases MS - i,
        {
            if surv_v[i] {
                healths.push(nh_v[i]);
                lengths.push(nl_v[i]);
                heads.push(CellIndex(nidx_v[i]));
            } else {
                healths.push(0);
                lengths.push(0);
                heads.push(CellIndex(0));
            }
            i += 1;
        }

        let r = CellBoard {
            hazard_damage: b.hazard_damage,
            cells,
            healths,
            heads,
            lengths,
            actual_width: w,
            actual_height: h,
        };
        proof {
            assert(tick_rel(*b, mv, r));
            lemma_tick_wf(*b, mv, r);
        }
        r
    }
}

/// A board produced by the tick relation from a well-formed board is itself
/// well-formed: the simulation preserves every structural invariant.
pub proof fn lemma_tick_wf<const BS: usize, const MS: usize>(
    b: CellBoard<BS, MS>,
    moves: Seq<Move>,
    r: CellBoard<BS, MS>,
)
    requires
        b.wf(),
        moves.len() == MS as int,
        MS as int <= 256,
        tick_rel(b, moves, r),
    ensures
        r.wf(),
{
    assert forall|c: int| 0 <= c < BS && !(#[trigger] r.cells@[c]).s_empty() implies (r.cells@[c].id
        as int) < MS as int && r.healths@[r.cells@[c].id as int] > 0 && (r.cells@[c].idx as int)
        < r.actual_width * r.actual_height by {
        lemma_cell_next_props(b, moves, c);
    }
    assert forall|i: int| 0 <= i < MS as int && (#[trigger] r.healths@[i]) > 0 implies (
    r.heads@[i].0 as int) < r.actual_width * r.actual_height && (r.cells@[r.heads@[i].0
        as int].s_head() || r.cells@[r.heads@[i].0 as int].s_kind() == KIND_TRIPLE)
        && r.cells@[r.heads@[i].0 as int].id as int == i by {
        assert(s_survives(b, moves, i));
        lemma_nidx_bound(b, i, moves[i]);
        let c = s_nidx(b, i, moves[i]);
        lemma_cell_next_props(b, moves, c);
        let iw = choose|ii: int|
            0 <= ii < MS as int && #[trigger] s_survives(b, moves, ii) && s_nidx(b, ii, moves[ii])
                == c;
        if iw != i {
            lemma_unique_heads(b, moves, iw, i);
        }
        assert(iw == i);
    }
}

/// Field facts about the next board's cell at `c`: any occupied cell belongs
/// to a survivor and links inside the grid, a survivor's landing square is a
/// head cell it owns, and flags behave as the tick relation states.
pub proof fn lemma_cell_next_props<const BS: usize, const MS: usize>(
    b: CellBoard<BS, MS>,
    moves: Seq<Move>,
    c: int,
)
    requires
        b.wf(),
        moves.len() == MS as int,
        MS as int <= 256,
        0 <= c < BS,
    ensures
        !cell_next(b, moves, c).s_empty() ==> {
            let cn = cell_next(b, moves, c);
            &&& (cn.id as int) < MS as int
            &&& s_survives(b, moves, cn.id as int)
            &&& (cn.idx as int) < b.actual_width * b.actual_height
        },
        forall|i: int|
            0 <= i < MS as int && #[trigger] s_survives(b, moves, i) && s_nidx(b, i, moves[i]) == c
                ==> cell_next(b, moves, c).s_kind() == KIND_HEAD && cell_next(b, moves, c).id
                as int == i,
        cell_next(b, moves, c).s_hazard() == b.cells@[c].s_hazard(),
        cell_next(b, moves, c).s_food() == (b.cells@[c].s_food() && !s_eaten_at(b, moves, c)),
{
    let c1 = cell_cleared(b, moves, c);
    let c2 = cell_vacated(b, moves, MS as int, c);
    let c3 = cell_advanced(b, moves, MS as int, c);
    let c4 = cell_headed(b, moves, MS as int, c);
    let cn = cell_next(b, moves, c);
    assert(c1.s_hazard() == b.cells@[c].s_hazard() && c1.s_food() == b.cells@[c].s_food());
    assert(c2.s_hazard() == c1.s_hazard() && c2.s_food() == c1.s_food());
    assert(c3.s_hazard() == c2.s_hazard() && c3.s_food() == c2.s_food());
    assert(c4.s_hazard() == c3.s_hazard() && c4.s_food() == c3.s_food());
    lemma_flag_ops(c4);
    assert(cn.s_hazard() == c4.s_hazard());
    assert(s_eaten_at(b, moves, c) ==> !cn.s_food());
    assert(!s_eaten_at(b, moves, c) ==> cn.s_food() == c4.s_food());
    if !c1.s_empty() {
        assert((c1.id as int) < MS as int && s_survives(b, moves, c1.id as int));
        assert((c1.idx as int) < b.actual_width * b.actual_height);
    }
    if !c2.s_empty() {
        let i = c1.id as int;
        if !c1.s_empty() && i < MS as int && s_survives(b, moves, i) && !s_ate(b, i, moves[i])
            && s_tail(b, i) == c && c1.s_kind() == KIND_TRIPLE && c == b.heads@[i].0 as int {
            lemma_nidx_bound(b, i, moves[i]);
        }
    }
    if !c3.s_empty() {
        let i = c2.id as int;
        if !c2.s_empty() && i < MS as int && s_survives(b, moves, i) && b.heads@[i].0 as int == c {
            lemma_nidx_bound(b, i, moves[i]);
        }
    }
    if exists|i: int|
        0 <= i < MS as int && #[trigger] s_survives(b, moves, i) && s_nidx(b, i, moves[i]) == c {
        let iw = choose|i: int|
            0 <= i < MS as int && #[trigger] s_survives(b, moves, i) && s_nidx(b, i, moves[i])
                == c;
        lemma_nidx_bound(b, iw, moves[iw]);
        let t = s_tail(b, iw);
        assert(b.s_alive(iw));
        assert((b.heads@[iw].0 as int) < b.actual_width * b.actual_height);
        assert((t as int) < b.actual_width * b.actual_height);
        assert((s_new_tail(b, iw, moves[iw]) as int) < b.actual_width * b.actual_height);
        assert(exists|i: int|
            0 <= i < MS as int && #[trigger] s_survives(b, moves, i) && s_nidx(b, i, moves[i])
                == c);
        assert(c4.s_kind() == KIND_HEAD);
        let ih = choose|i: int|
            0 <= i < MS as int && #[trigger] s_survives(b, moves, i) && s_nidx(b, i, moves[i])
                == c;
        assert forall|i: int|
            0 <= i < MS as int && #[trigger] s_survives(b, moves, i) && s_nidx(b, i, moves[i])
                == c implies cell_next(b, moves, c).s_kind() == KIND_HEAD && cell_next(
            b,
            moves,
            c,
        ).id as int == i by {
            if i != ih {
                lemma_unique_heads(b, moves, i, ih);
            }
            assert(i == ih);
            if c4.id as int != i {
                assert(false);
            }
        }
    }
}

} // verus!
verus! {

/// The outcome descriptor for one simulated combination: the full per-slot
/// move vector the tick was computed with (slots of dead agents are filled
/// with a default move and ignored).
pub struct Action {
    pub moves: Vec<Move>,
}

/// The number of joint move combinations an input describes.
pub open spec fn spec_product(inputs: Seq<(SnakeId, Vec<Move>)>) -> int
    decreases inputs.len(),
{
    if inputs.len() == 0 {
        1
    } else {
        spec_product(inputs.drop_last()) * inputs.last().1@.len()
    }
}

/// Each listed agent's slot in `mvs` holds a move drawn from its own set.
pub open spec fn spec_assignment_ok(inputs: Seq<(SnakeId, Vec<Move>)>, mvs: Seq<Move>) -> bool {
    forall|t: int|
        0 <= t < inputs.len() ==> (#[trigger] inputs[t]).1@.contains(
            mvs[inputs[t].0.0 as int],
        )
}

/// Copies a move vector.
fn copy_moves(v: &Vec<Move>) -> (r: Vec<Move>)
    ensures
        r@ == v@,
{
    let mut r: Vec<Move> = Vec::new();
    let n = v.len();
    for k in 0..n
        invariant
            n == v@.len(),
            r@ == v@.take(k as int),
    {
        r.push(v[k]);
        proof {
            assert(v@.take(k + 1) =~= v@.take(k as int).push(v@[k as int]));
        }
    }
    proof {
        assert(v@.take(n as int) =~= v@);
    }
    r
}

impl<const BS: usize, const MS: usize> CellBoard<BS, MS> {
    /// Simulates every combination of the given candidate move sets: one
    /// result per element of their Cartesian product, each an independent
    /// next board with the joint action that produced it. The order of
    /// results is deterministic for a given input order but not part of the
    /// contract.
    #[verifier::loop_isolation(false)]
    #[verifier::rlimit(100)]
    pub fn simulate_with_moves(&self, snake_ids_and_moves: &Vec<(SnakeId, Vec<Move>)>) -> (r: Vec<
        (Action, Self),
    >)
        requires
            self.wf(),
            MS as int <= 256,
            forall|t: int|
                0 <= t < snake_ids_and_moves@.len() ==> ((#[trigger] snake_ids_and_moves@[t]).0.0
                    as int) < MS as int,
            forall|t1: int, t2: int|
                0 <= t1 < t2 < snake_ids_and_moves@.len() ==> (#[trigger] snake_ids_and_moves@[t1]).0
                    != (#[trigger] snake_ids_and_moves@[t2]).0,
            forall|t: int, m1: int, m2: int|
                0 <= t < snake_ids_and_moves@.len() && 0 <= m1 < m2
                    < snake_ids_and_moves@[t].1@.len() ==> (#[trigger] snake_ids_and_moves@[t].1@[m1])
                    != (#[trigger] snake_ids_and_moves@[t].1@[m2]),
        ensures
            r@.len() == spec_product(snake_ids_and_moves@),
            forall|k1: int, k2: int|
                0 <= k1 < k2 < r@.len() ==> (#[trigger] r@[k1]).0.moves@ != (
                #[trigger] r@[k2]).0.moves@,
            forall|k: int|
                0 <= k < r@.len() ==> {
                    let a = (#[trigger] r@[k]).0;
                    &&& a.moves@.len() == MS as int
                    &&& spec_assignment_ok(snake_ids_and_moves@, a.moves@)
                    &&& tick_rel(*self, a.moves@, r@[k].1)
                    &&& r@[k].1.wf()
                },
    {
        let inputs = snake_ids_and_moves;
        let mut base: Vec<Move> = Vec::new();
        while base.len() < MS
            invariant
                base@.len() <= MS as int,
                forall|s2: int| 0 <= s2 < base@.len() ==> (#[trigger] base@[s2]) == Move::Up,
            decreases MS - base@.len(),
        {
            base.push(Move::Up);
        }
        let mut combos: Vec<Action> = Vec::new();
        combos.push(Action { moves: base });
        let n = inputs.len();
        for t in 0..n
            invariant
                n == inputs@.len(),
                combos@.len() == spec_product(inputs@.take(t as int)),
                forall|k: int|
                    0 <= k < combos@.len() ==> (#[trigger] combos@[k]).moves@.len() == MS as int
                        && spec_assignment_ok(inputs@.take(t as int), combos@[k].moves@),
                forall|k1: int, k2: int|
                    0 <= k1 < k2 < combos@.len() ==> (#[trigger] combos@[k1]).moves@ != (
                    #[trigger] combos@[k2]).moves@,
                forall|k: int, tt: int|
                    0 <= k < combos@.len() && t as int <= tt < n as int ==> (
                    #[trigger] combos@[k]).moves@[(#[trigger] inputs@[tt]).0.0 as int]
                        == Move::Up,
        {
            let mut next: Vec<Action> = Vec::new();
            let cn = combos.len();
            let sn = inputs[t].1.len();
            let id = inputs[t].0.0 as usize;
            proof {
                assert(0int * (sn as int) == 0) by (nonlinear_arith);
            }
            for a_idx in 0..cn
                invariant
                    cn == combos@.len(),
                    sn == inputs@[t as int].1@.len(),
                    id == inputs@[t as int].0.0 as int,
                    next@.len() == a_idx as int * sn as int,
                    forall|k: int|
                        0 <= k < next@.len() ==> (#[trigger] next@[k]).moves@.len() == MS as int
                            && spec_assignment_ok(inputs@.take(t + 1), next@[k].moves@),
                    forall|k: int|
                        0 <= k < next@.len() ==> (#[trigger] next@[k]).moves@ == combos@[k / (
                        sn as int)].moves@.update(id as int, inputs@[t as int].1@[k % (sn as int)]),
            {
                for m_idx in 0..sn
                    invariant
                        cn == combos@.len(),
                        sn == inputs@[t as int].1@.len(),
                        id == inputs@[t as int].0.0 as int,
                        next@.len() == a_idx as int * sn as int + m_idx as int,
                        forall|k: int|
                            0 <= k < next@.len() ==> (#[trigger] next@[k]).moves@.len() == MS as int
                                && spec_assignment_ok(inputs@.take(t + 1), next@[k].moves@),
                        forall|k: int|
                            0 <= k < next@.len() ==> (#[trigger] next@[k]).moves@ == combos@[k / (
                            sn as int)].moves@.update(
                            id as int,
                            inputs@[t as int].1@[k % (sn as int)],
                        ),
                {
                    let mut mvs = copy_moves(&combos[a_idx].moves);
                    mvs.set(id, inputs[t].1[m_idx]);
                    proof {
                        assert(inputs@[t as int].1@.contains(mvs@[id as int]));
                        assert forall|tt: int| 0 <= tt < t + 1 implies (#[trigger] inputs@.take(
                            t + 1,
                        )[tt]).1@.contains(mvs@[inputs@.take(t + 1)[tt].0.0 as int]) by {
                            assert(inputs@.take(t + 1)[tt] == inputs@[tt]);
                            if tt < t as int {
                                assert(inputs@.take(t as int)[tt] == inputs@[tt]);
                                assert((#[trigger] inputs@.take(t as int)[tt]).1@.contains(
                                    combos@[a_idx as int].moves@[inputs@.take(t as int)[tt].0.0
                                        as int],
                                ));
                                assert(inputs@[tt].0 != inputs@[t as int].0);
                                assert(inputs@[tt].0.0 as int != id as int);
                            }
                        }
                    }
                    let ghost k0 = next@.len() as int;
                    next.push(Action { moves: mvs });
                    proof {
                        lemma_fundamental_div_mod_converse(
                            k0,
                            sn as int,
                            a_idx as int,
                            m_idx as int,
                        );
                        assert(next@[k0].moves@ == combos@[a_idx as int].moves@.update(
                            id as int,
                            inputs@[t as int].1@[m_idx as int],
                        ));
                    }
                }
                proof {
                    assert((a_idx + 1) as int * (sn as int) == a_idx as int * (sn as int) + (
                    sn as int)) by (nonlinear_arith);
                }
            }
            proof {
                assert(spec_product(inputs@.take(t + 1)) == spec_product(inputs@.take(t as int))
                    * (sn as int)) by {
                    assert(inputs@.take(t + 1).drop_last() =~= inputs@.take(t as int));
                    assert(inputs@.take(t + 1).last() == inputs@[t as int]);
                }
                assert forall|k1: int, k2: int|
                    0 <= k1 < k2 < next@.len() implies (#[trigger] next@[k1]).moves@ != (
                #[trigger] next@[k2]).moves@ by {
                    assert(sn > 0) by (nonlinear_arith)
                        requires
                            next@.len() == (cn as int) * (sn as int),
                            next@.len() > 0,
                    ;
                    lemma_fundamental_div_mod(k1, sn as int);
                    lemma_mod_bound(k1, sn as int);
                    lemma_fundamental_div_mod(k2, sn as int);
                    lemma_mod_bound(k2, sn as int);
                    let a1 = k1 / (sn as int);
                    let m1 = k1 % (sn as int);
                    let a2 = k2 / (sn as int);
                    let m2 = k2 % (sn as int);
                    assert(0 <= a1 && a1 < cn as int && 0 <= a2 && a2 < cn as int)
                        by (nonlinear_arith)
                        requires
                            k1 == (sn as int) * a1 + m1,
                            k2 == (sn as int) * a2 + m2,
                            0 <= m1 < sn as int,
                            0 <= m2 < sn as int,
                            0 <= k1 < (cn as int) * (sn as int),
                            0 <= k2 < (cn as int) * (sn as int),
                            a1 >= 0,
                            a2 >= 0,
                    ;
                    let s1 = next@[k1].moves@;
                    let s2 = next@[k2].moves@;
                    if m1 != m2 {
                        assert(s1[id as int] == inputs@[t as int].1@[m1]);
                        assert(s2[id as int] == inputs@[t as int].1@[m2]);
                        assert(inputs@[t as int].1@[m1] != inputs@[t as int].1@[m2]);
                    } else {
                        if a1 == a2 {
                            assert(k1 == k2);
                        }
                        assert(a1 != a2);
                        let c1 = combos@[a1].moves@;
                        let c2 = combos@[a2].moves@;
                        assert(c1 != c2);
                        assert(exists|sl: int| 0 <= sl < MS as int && c1[sl] != c2[sl]) by {
                            if !(exists|sl: int| 0 <= sl < MS as int && c1[sl] != c2[sl]) {
                                assert forall|sl: int| 0 <= sl < MS as int implies c1[sl]
                                    == c2[sl] by {}
                                assert(c1 =~= c2);
                            }
                        }
                        let sl = choose|sl: int| 0 <= sl < MS as int && c1[sl] != c2[sl];
                        assert(c1[id as int] == Move::Up && c2[id as int] == Move::Up);
                        assert(sl != id as int);
                        assert(s1[sl] == c1[sl] && s2[sl] == c2[sl]);
                    }
                }
                assert forall|k: int, tt: int|
                    0 <= k < next@.len() && t + 1 <= tt < n as int implies (
                #[trigger] next@[k]).moves@[(#[trigger] inputs@[tt]).0.0 as int] == Move::Up by {
                    assert(sn > 0) by (nonlinear_arith)
                        requires
                            next@.len() == (cn as int) * (sn as int),
                            next@.len() > 0,
                    ;
                    lemma_fundamental_div_mod(k, sn as int);
                    lemma_mod_bound(k, sn as int);
                    let a1 = k / (sn as int);
                    assert(0 <= a1 && a1 < cn as int) by (nonlinear_arith)
                        requires
                            k == (sn as int) * a1 + k % (sn as int),
                            0 <= k % (sn as int) < sn as int,
                            0 <= k < (cn as int) * (sn as int),
                            a1 >= 0,
                    ;
                    assert(inputs@[tt].0 != inputs@[t as int].0);
                    assert(inputs@[tt].0.0 as int != id as int);
                    assert(combos@[a1].moves@[inputs@[tt].0.0 as int] == Move::Up);
                }
            }
            combos = next;
            proof {
                assert(inputs@.take(t + 1).drop_last() =~= inputs@.take(t as int));
                assert(inputs@.take(t + 1).last() == inputs@[t as int]);
            }
        }
        proof {
            assert(inputs@.take(n as int) =~= inputs@);
        }
        let mut out: Vec<(Action, Self)> = Vec::new();
        let kn = combos.len();
        for k in 0..kn
            invariant
                kn == combos@.len(),
                out@.len() == k as int,
                forall|kk: int|
                    0 <= kk < combos@.len() ==> (#[trigger] combos@[kk]).moves@.len() == MS as int
                        && spec_assignment_ok(inputs@, combos@[kk].moves@),
                forall|kk: int|
                    0 <= kk < out@.len() ==> {
                        let a = (#[trigger] out@[kk]).0;
                        &&& a.moves@.len() == MS as int
                        &&& spec_assignment_ok(inputs@, a.moves@)
                        &&& tick_rel(*self, a.moves@, out@[kk].1)
                        &&& out@[kk].1.wf()
                    },
                forall|kk: int|
                    0 <= kk < out@.len() ==> (#[trigger] out@[kk]).0.moves@ == combos@[kk].moves@,
                forall|k1: int, k2: int|
                    0 <= k1 < k2 < combos@.len() ==> (#[trigger] combos@[k1]).moves@ != (
                    #[trigger] combos@[k2]).moves@,
        {
            let mvs = copy_moves(&combos[k].moves);
            let board = self.apply_moves(&mvs);
            out.push((Action { moves: mvs }, board));
        }
        out
    }
}

/// How many agents are alive among the first `n` slots.
pub open spec fn live_count(h: Seq<u8>, n: int) -> int
    decreases n,
{
    if n <= 0 {
        0
    } else {
        live_count(h, n - 1) + if h[n - 1] > 0 {
            1int
        } else {
            0int
        }
    }
}

proof fn lemma_live_count_mono(h1: Seq<u8>, h2: Seq<u8>, n: int)
    requires
        forall|i: int| 0 <= i < n && #[trigger] h1[i] > 0 ==> h2[i] > 0,
    ensures
        live_count(h1, n) <= live_count(h2, n),
    decreases n,
{
    if n > 0 {
        lemma_live_count_mono(h1, h2, n - 1);
    }
}

/// Simulation conserves mass: a tick never adds a live agent, and an agent
/// that survives without eating keeps its length and loses exactly one
/// health point plus the board's hazard damage if its new head square is
/// hazardous.
pub proof fn lemma_mass_conserved<const BS: usize, const MS: usize>(
    b: CellBoard<BS, MS>,
    moves: Seq<Move>,
    r: CellBoard<BS, MS>,
)
    requires
        b.wf(),
        moves.len() == MS as int,
        tick_rel(b, moves, r),
    ensures
        live_count(r.healths@, MS as int) <= live_count(b.healths@, MS as int),
        forall|i: int|
            0 <= i < MS as int && #[trigger] s_survives(b, moves, i) && !s_ate(b, i, moves[i])
                ==> r.healths@[i] as int == b.healths@[i] - 1 - (if s_hz(b, i, moves[i]) {
                b.hazard_damage as int
            } else {
                0
            }) && r.lengths@[i] == b.lengths@[i],
{
    assert forall|i: int| 0 <= i < MS as int && #[trigger] r.healths@[i] > 0 implies b.healths@[i]
        > 0 by {
        assert(s_survives(b, moves, i));
    }
    lemma_live_count_mono(r.healths@, b.healths@, MS as int);
}

/// Eating resets health to the maximum and grows the agent by exactly one
/// segment.
pub proof fn lemma_eating_resets<const BS: usize, const MS: usize>(
    b: CellBoard<BS, MS>,
    moves: Seq<Move>,
    r: CellBoard<BS, MS>,
    i: int,
)
    requires
        b.wf(),
        moves.len() == MS as int,
        tick_rel(b, moves, r),
        0 <= i < MS as int,
        s_survives(b, moves, i),
        s_ate(b, i, moves[i]),
        b.lengths@[i] < u16::MAX,
    ensures
        r.healths@[i] == MAX_HEALTH,
        r.lengths@[i] as int == b.lengths@[i] + 1,
{
}

/// Two agents landing on the same square: strictly unequal resulting lengths
/// eliminate exactly the shorter; equal lengths eliminate both.
pub proof fn lemma_head_to_head<const BS: usize, const MS: usize>(
    b: CellBoard<BS, MS>,
    moves: Seq<Move>,
    r: CellBoard<BS, MS>,
    i: int,
    j: int,
)
    requires
        b.wf(),
        moves.len() == MS as int,
        tick_rel(b, moves, r),
        0 <= i < MS as int,
        0 <= j < MS as int,
        i != j,
        s_surv1(b, i, moves[i]),
        s_surv1(b, j, moves[j]),
        s_nidx(b, i, moves[i]) == s_nidx(b, j, moves[j]),
        forall|k: int|
            0 <= k < MS as int && k != i && k != j ==> !(#[trigger] s_surv1(b, k, moves[k])
                && s_nidx(b, k, moves[k]) == s_nidx(b, i, moves[i])),
    ensures
        s_new_len(b, i, moves[i]) > s_new_len(b, j, moves[j]) ==> r.healths@[j] == 0,
        s_new_len(b, i, moves[i]) > s_new_len(b, j, moves[j]) && !s_body_collision(b, moves, i)
            ==> r.healths@[i] as int == s_new_health(b, i, moves[i]),
        s_new_len(b, i, moves[i]) == s_new_len(b, j, moves[j]) ==> r.healths@[i] == 0
            && r.healths@[j] == 0,
{
    if s_new_len(b, i, moves[i]) > s_new_len(b, j, moves[j]) {
        assert(s_hth(b, moves, j));
        if !s_body_collision(b, moves, i) {
            if s_hth(b, moves, i) {
                let jw = choose|t: int|
                    0 <= t < MS as int && t != i && #[trigger] s_surv1(b, t, moves[t]) && s_nidx(
                        b,
                        t,
                        moves[t],
                    ) == s_nidx(b, i, moves[i]) && s_new_len(b, t, moves[t]) >= s_new_len(
                        b,
                        i,
                        moves[i],
                    );
                if jw != j {
                    assert(s_hth(b, moves, j));
                }
            }
        }
    }
    if s_new_len(b, i, moves[i]) == s_new_len(b, j, moves[j]) {
        assert(s_hth(b, moves, i));
        assert(s_hth(b, moves, j));
    }
}

} // verus!
