use vstd::prelude::*;
use crate::cell::{Position, SnakeId};

verus! {

/// One agent's record in an external game snapshot: a native string id, its
/// health, and its body coordinates ordered from head to tail (coincident
/// segments appear as repeated coordinates).
pub struct BattleSnake {
    pub id: String,
    pub health: u8,
    pub body: Vec<Position>,
}

/// An external game snapshot: board dimensions, agent records, food and
/// hazard coordinate sets, the ruleset's name, and its optional
/// hazard-damage-per-turn setting.
pub struct Game {
    pub width: u32,
    pub height: u32,
    pub snakes: Vec<BattleSnake>,
    pub food: Vec<Position>,
    pub hazards: Vec<Position>,
    pub ruleset_name: String,
    pub hazard_damage_per_turn: Option<u8>,
}

/// The externally assigned bijection from native agent ids to dense
/// small-integer ids: looked up by first match.
pub type SnakeIDMap = Vec<(String, SnakeId)>;

/// First-match lookup of a native id in an id map.
pub open spec fn spec_lookup(m: Seq<(String, SnakeId)>, id: Seq<char>) -> Option<SnakeId>
    decreases m.len(),
{
    if m.len() == 0 {
        None
    } else if m[0].0@ == id {
        Some(m[0].1)
    } else {
        spec_lookup(m.drop_first(), id)
    }
}

/// The dense id a snapshot agent is filed under: `None` for an agent whose
/// health is zero (it is already eliminated), otherwise the id map's entry.
pub fn get_snake_id(snake: &BattleSnake, snake_ids: &SnakeIDMap) -> (r: Option<SnakeId>)
    requires
        snake.health != 0 ==> spec_lookup(snake_ids@, snake.id@).is_some(),
    ensures
        r == (if snake.health == 0 {
            Option::<SnakeId>::None
        } else {
            spec_lookup(snake_ids@, snake.id@)
        }),
{
    if snake.health == 0 {
        None
    } else {
        proof {
            assert(snake_ids@.skip(0) =~= snake_ids@);
        }
        let mut j: usize = 0;
        while j < snake_ids.len()
            invariant
                snake.health != 0,
                0 <= j <= snake_ids@.len(),
                spec_lookup(snake_ids@, snake.id@).is_some(),
                spec_lookup(snake_ids@.skip(j as int), snake.id@) == spec_lookup(
                    snake_ids@,
                    snake.id@,
                ),
            decreases snake_ids@.len() - j,
        {
            proof {
                assert(snake_ids@.skip(j as int).drop_first() =~= snake_ids@.skip(j + 1));
            }
            if snake_ids[j].0 == snake.id {
                proof {
                    let tail = snake_ids@.skip(j as int);
                    assert(tail[0] == snake_ids@[j as int]);
                    assert(tail.len() > 0);
                    assert(tail[0].0@ == snake.id@);
                    assert(spec_lookup(tail, snake.id@) == Some(tail[0].1));
                    assert(spec_lookup(snake_ids@, snake.id@) == Some(snake_ids@[j as int].1));
                }
                return Some(snake_ids[j].1);
            }
            j += 1;
        }
        proof {
            assert(snake_ids@.skip(snake_ids@.len() as int).len() == 0);
        }
        unreached()
    }
}

/// Assigns dense ids to a snapshot's agents in record order.
pub fn build_snake_id_map(g: &Game) -> (r: SnakeIDMap)
    requires
        g.snakes@.len() <= 255,
    ensures
        r@.len() == g.snakes@.len(),
        forall|k: int|
            0 <= k < r@.len() ==> (#[trigger] r@[k]).0@ == g.snakes@[k].id@ && r@[k].1.0 == k,
{
    let mut m: SnakeIDMap = Vec::new();
    let n = g.snakes.len();
    for k in 0..n
        invariant
            n == g.snakes@.len() <= 255,
            m@.len() == k,
            forall|j: int|
                0 <= j < k ==> (#[trigger] m@[j]).0@ == g.snakes@[j].id@ && m@[j].1.0 == j,
    {
        m.push((g.snakes[k].id.clone(), SnakeId(k as u8)));
    }
    m
}

/// How many times a coordinate occurs in a body.
pub open spec fn spec_count(body: Seq<Position>, p: Position) -> int
    decreases body.len(),
{
    if body.len() == 0 {
        0
    } else {
        spec_count(body.drop_last(), p) + if body.last() == p {
            1int
        } else {
            0int
        }
    }
}

/// The body's distinct coordinates, each kept at its first occurrence.
pub open spec fn spec_uniq(body: Seq<Position>) -> Seq<Position>
    decreases body.len(),
{
    if body.len() == 0 {
        Seq::empty()
    } else {
        let prefix = spec_uniq(body.drop_last());
        if body.drop_last().contains(body.last()) {
            prefix
        } else {
            prefix.push(body.last())
        }
    }
}

/// Every element of `spec_uniq(body)` occurs in `body`, each body element is
/// in it, and its elements are distinct.
pub proof fn lemma_uniq_props(body: Seq<Position>)
    ensures
        forall|u: int| 0 <= u < spec_uniq(body).len() ==> body.contains(#[trigger] spec_uniq(body)[u]),
        forall|k: int| 0 <= k < body.len() ==> spec_uniq(body).contains(#[trigger] body[k]),
        forall|u: int, v: int|
            0 <= u < v < spec_uniq(body).len() ==> spec_uniq(body)[u] != spec_uniq(body)[v],
    decreases body.len(),
{
    if body.len() > 0 {
        let pre = body.drop_last();
        lemma_uniq_props(pre);
        assert(forall|k: int| 0 <= k < pre.len() ==> pre[k] == #[trigger] body[k]);
        assert forall|k: int| 0 <= k < body.len() implies spec_uniq(body).contains(
            #[trigger] body[k],
        ) by {
            if k < pre.len() {
                let u = choose|u: int|
                    0 <= u < spec_uniq(pre).len() && spec_uniq(pre)[u] == pre[k];
                if pre.contains(body.last()) {
                    assert(spec_uniq(body)[u] == pre[k]);
                } else {
                    assert(spec_uniq(body)[u] == pre[k]);
                }
            } else {
                if pre.contains(body.last()) {
                    let j = choose|j: int| 0 <= j < pre.len() && pre[j] == body.last();
                    let u = choose|u: int|
                        0 <= u < spec_uniq(pre).len() && spec_uniq(pre)[u] == pre[j];
                    assert(spec_uniq(body)[u] == body[k]);
                } else {
                    assert(spec_uniq(body).last() == body[k]);
                }
            }
        }
        assert forall|u: int| 0 <= u < spec_uniq(body).len() implies body.contains(
            #[trigger] spec_uniq(body)[u],
        ) by {
            if u < spec_uniq(pre).len() {
                let k = choose|k: int| 0 <= k < pre.len() && pre[k] == spec_uniq(pre)[u];
                assert(body[k] == spec_uniq(body)[u]);
            } else {
                assert(spec_uniq(body)[u] == body.last());
                assert(body[body.len() - 1] == body.last());
            }
        }
    }
}

/// Builds the distinct-coordinate list of a body, in first-occurrence order.
pub fn uniq_positions(body: &Vec<Position>) -> (r: Vec<Position>)
    ensures
        r@ == spec_uniq(body@),
{
    let mut r: Vec<Position> = Vec::new();
    let n = body.len();
    for k in 0..n
        invariant
            n == body@.len(),
            r@ == spec_uniq(body@.take(k as int)),
    {
        let p = body[k];
        let mut seen = false;
        let mut j: usize = 0;
        while j < k
            invariant
                0 <= j <= k < body@.len(),
                seen == exists|t: int| 0 <= t < j && body@[t] == p,
                p == body@[k as int],
            decreases k - j,
        {
            if body[j] == p {
                seen = true;
            }
            j += 1;
        }
        proof {
            if seen {
                let t = choose|t: int| 0 <= t < k && body@[t] == p;
                assert(body@.take(k as int)[t] == p);
                assert(body@.take(k as int).contains(p));
            } else if body@.take(k as int).contains(p) {
                let t = choose|t: int|
                    0 <= t < k && body@.take(k as int)[t] == p;
                assert(body@[t] == p);
            }
            assert(seen == body@.take(k as int).contains(p));
            assert(body@.take(k + 1).drop_last() =~= body@.take(k as int));
            assert(body@.take(k + 1).last() == p);
        }
        if !seen {
            r.push(p);
        }
    }
    proof {
        assert(body@.take(n as int) =~= body@);
    }
    r
}

/// How often `p` occurs in `body`.
pub fn count_position(body: &Vec<Position>, p: Position) -> (r: usize)
    ensures
        r == spec_count(body@, p),
{
    let mut r: usize = 0;
    let n = body.len();
    for k in 0..n
        invariant
            n == body@.len(),
            r == spec_count(body@.take(k as int), p),
            r <= k,
    {
        proof {
            assert(body@.take(k + 1).drop_last() =~= body@.take(k as int));
            assert(body@.take(k + 1).last() == body@[k as int]);
        }
        if body[k] == p {
            r += 1;
        }
    }
    proof {
        assert(body@.take(n as int) =~= body@);
    }
    r
}

} // verus!
