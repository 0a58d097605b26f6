use compact_board::board::CellBoard;
use compact_board::cell::{Move, Position, SnakeId, KIND_MASK, KIND_TRIPLE};
use compact_board::game::{build_snake_id_map, BattleSnake, Game};
use compact_board::select::CellBoard4Snakes11x11;
use itertools::Itertools;

fn snake(id: &str, health: u8, body: &[(i32, i32)]) -> BattleSnake {
    BattleSnake {
        id: id.to_owned(),
        health,
        body: body.iter().map(|&(x, y)| Position { x, y }).collect(),
    }
}

fn one_snake_game(body: &[(i32, i32)], food: &[(i32, i32)]) -> Game {
    Game {
        width: 11,
        height: 11,
        snakes: vec![snake("one", 100, body)],
        food: food.iter().map(|&(x, y)| Position { x, y }).collect(),
        hazards: vec![],
        ruleset_name: "standard".to_owned(),
        hazard_damage_per_turn: None,
    }
}

fn convert(g: Game) -> CellBoard4Snakes11x11 {
    let m = build_snake_id_map(&g);
    CellBoard::convert_from_game(g, &m).unwrap()
}

fn one_move(b: &CellBoard4Snakes11x11, id: u8, mv: Move) -> CellBoard4Snakes11x11 {
    let res = b.simulate_with_moves(&vec![(SnakeId(id), vec![mv])]);
    assert_eq!(res.len(), 1);
    res.into_iter().next().unwrap().1
}

#[test]
fn test_tail_collision() {
    let g = one_snake_game(&[(5, 5), (5, 5), (5, 5)], &[(0, 8)]);
    let mut compact = convert(g);
    let moves = [
        Move::Left,
        Move::Down,
        Move::Right,
        Move::Up,
        Move::Left,
        Move::Down,
    ];
    for mv in moves {
        let res = compact
            .simulate_with_moves(&vec![(SnakeId(0), vec![mv])])
            .into_iter()
            .collect_vec();
        compact = res.into_iter().next().unwrap().1;
    }
    assert!(compact.get_health(&SnakeId(0)) > 0);
}

#[test]
fn spawn_move_leaves_triple_stack() {
    let g = one_snake_game(&[(5, 5), (5, 5), (5, 5)], &[]);
    let b = convert(g);
    let next = one_move(&b, 0, Move::Up);
    assert_eq!(next.get_length(&SnakeId(0)), 3);
    assert_eq!(
        next.get_head_as_position(&SnakeId(0)),
        Position { x: 5, y: 6 }
    );
    let spawn = &next.cells[(5 * 11 + 5) as usize];
    assert!(spawn.is_body());
    assert_ne!(spawn.flags & KIND_MASK, KIND_TRIPLE);
}

#[test]
fn wall_move_eliminates_and_clears() {
    let g = one_snake_game(&[(0, 5), (1, 5), (2, 5)], &[]);
    let b = convert(g);
    let next = one_move(&b, 0, Move::Left);
    assert_eq!(next.get_health(&SnakeId(0)), 0);
    for c in &next.cells {
        assert!(c.get_snake_id().is_none());
    }
}

#[test]
fn eating_resets_health_and_grows() {
    let mut g = one_snake_game(&[(5, 5), (5, 4), (5, 3)], &[(5, 6)]);
    g.snakes[0].health = 40;
    let b = convert(g);
    let next = one_move(&b, 0, Move::Up);
    assert_eq!(next.get_health(&SnakeId(0)), 100);
    assert_eq!(next.get_length(&SnakeId(0)), 4);
}

#[test]
fn surviving_without_eating_costs_one_health() {
    let mut g = one_snake_game(&[(5, 5), (5, 4), (5, 3)], &[]);
    g.snakes[0].health = 40;
    let b = convert(g);
    let next = one_move(&b, 0, Move::Up);
    assert_eq!(next.get_health(&SnakeId(0)), 39);
    assert_eq!(next.get_length(&SnakeId(0)), 3);
}

#[test]
fn hazard_damage_applies() {
    let mut g = one_snake_game(&[(5, 5), (5, 4), (5, 3)], &[]);
    g.hazards = vec![Position { x: 5, y: 6 }];
    g.hazard_damage_per_turn = Some(15);
    g.snakes[0].health = 40;
    let b = convert(g);
    let next = one_move(&b, 0, Move::Up);
    assert_eq!(next.get_health(&SnakeId(0)), 24);
}

#[test]
fn head_to_head_longer_wins() {
    let g = Game {
        width: 11,
        height: 11,
        snakes: vec![
            snake("long", 100, &[(2, 2), (2, 1), (2, 0)]),
            snake("short", 100, &[(4, 2), (4, 1)]),
        ],
        food: vec![],
        hazards: vec![],
        ruleset_name: "standard".to_owned(),
        hazard_damage_per_turn: None,
    };
    let b = convert(g);
    let res = b.simulate_with_moves(&vec![
        (SnakeId(0), vec![Move::Right]),
        (SnakeId(1), vec![Move::Left]),
    ]);
    assert_eq!(res.len(), 1);
    let next = &res[0].1;
    assert!(next.get_health(&SnakeId(0)) > 0);
    assert_eq!(next.get_health(&SnakeId(1)), 0);
    assert_eq!(
        next.get_head_as_position(&SnakeId(0)),
        Position { x: 3, y: 2 }
    );
}

#[test]
fn head_to_head_equal_lengths_kill_both() {
    let g = Game {
        width: 11,
        height: 11,
        snakes: vec![
            snake("a", 100, &[(2, 2), (2, 1), (2, 0)]),
            snake("b", 100, &[(4, 2), (4, 1), (4, 0)]),
        ],
        food: vec![],
        hazards: vec![],
        ruleset_name: "standard".to_owned(),
        hazard_damage_per_turn: None,
    };
    let b = convert(g);
    let res = b.simulate_with_moves(&vec![
        (SnakeId(0), vec![Move::Right]),
        (SnakeId(1), vec![Move::Left]),
    ]);
    let next = &res[0].1;
    assert_eq!(next.get_health(&SnakeId(0)), 0);
    assert_eq!(next.get_health(&SnakeId(1)), 0);
}

#[test]
fn simulation_covers_move_combinations() {
    let g = Game {
        width: 11,
        height: 11,
        snakes: vec![
            snake("a", 100, &[(2, 2), (2, 1), (2, 0)]),
            snake("b", 100, &[(8, 2), (8, 1), (8, 0)]),
        ],
        food: vec![],
        hazards: vec![],
        ruleset_name: "standard".to_owned(),
        hazard_damage_per_turn: None,
    };
    let b = convert(g);
    let res = b.simulate_with_moves(&vec![
        (SnakeId(0), vec![Move::Up, Move::Left]),
        (SnakeId(1), vec![Move::Up, Move::Right, Move::Down]),
    ]);
    assert_eq!(res.len(), 6);
    for (_, board) in &res {
        assert!(board.get_health(&SnakeId(0)) > 0);
    }
    for k1 in 0..res.len() {
        for k2 in k1 + 1..res.len() {
            assert_ne!(res[k1].0.moves, res[k2].0.moves);
        }
    }
}

#[test]
fn random_reasonable_moves_avoid_walls() {
    let g = one_snake_game(&[(0, 0), (0, 1), (0, 2)], &[]);
    let b = convert(g);
    for _ in 0..20 {
        let picks = b.random_reasonable_move_for_each_snake();
        assert_eq!(picks.len(), 1);
        assert_eq!(picks[0].0, SnakeId(0));
        assert_eq!(picks[0].1, Move::Right);
    }
}
