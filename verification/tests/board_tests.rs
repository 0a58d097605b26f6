use compact_board::board::{CellBoard, ConvertError};
use compact_board::cell::{CellIndex, Position, SnakeId};
use compact_board::game::{build_snake_id_map, BattleSnake, Game};
use compact_board::select::{BestCellBoard, CellBoard4Snakes11x11, ToBestCellBoard};

fn snake(id: &str, health: u8, body: &[(i32, i32)]) -> BattleSnake {
    BattleSnake {
        id: id.to_owned(),
        health,
        body: body.iter().map(|&(x, y)| Position { x, y }).collect(),
    }
}

fn start_of_game() -> Game {
    Game {
        width: 11,
        height: 11,
        snakes: vec![
            snake("one", 100, &[(5, 5), (5, 5), (5, 5)]),
            snake("two", 100, &[(1, 1), (1, 1), (1, 1)]),
        ],
        food: vec![Position { x: 0, y: 8 }],
        hazards: vec![],
        ruleset_name: "standard".to_owned(),
        hazard_damage_per_turn: None,
    }
}

fn tiny_board() -> Game {
    Game {
        width: 7,
        height: 7,
        snakes: vec![snake("solo", 100, &[(3, 3), (3, 3), (3, 3)])],
        food: vec![],
        hazards: vec![],
        ruleset_name: "standard".to_owned(),
        hazard_damage_per_turn: None,
    }
}

#[test]
fn test_compact_board_conversion() {
    let converted = Game::to_best_cell_board(start_of_game());
    assert!(converted.is_ok());
    let u = converted.unwrap();
    match u {
        BestCellBoard::Standard(_) => {}
        _ => panic!("expected standard board"),
    }

    let converted = Game::to_best_cell_board(tiny_board());
    assert!(converted.is_ok());
    let u = converted.unwrap();
    match u {
        BestCellBoard::Tiny(_) => {}
        _ => panic!("expected standard board"),
    }
}

#[test]
fn test_head_gettable() {
    let g = Game {
        width: 11,
        height: 11,
        snakes: vec![snake("one", 16, &[(4, 6), (4, 5), (4, 4)])],
        food: vec![],
        hazards: vec![],
        ruleset_name: "standard".to_owned(),
        hazard_damage_per_turn: None,
    };
    let snake_id_mapping = build_snake_id_map(&g);
    let compact: CellBoard4Snakes11x11 =
        CellBoard::convert_from_game(g, &snake_id_mapping).unwrap();
    assert_eq!(
        compact.get_head_as_position(&SnakeId(0)),
        Position { x: 4, y: 6 }
    );
    assert_eq!(
        compact.get_head_as_native_position(&SnakeId(0)),
        CellIndex(6 * 11 + 4)
    );
}

#[test]
fn construction_is_deterministic() {
    let m = build_snake_id_map(&start_of_game());
    let b1: CellBoard4Snakes11x11 = CellBoard::convert_from_game(start_of_game(), &m).unwrap();
    let b2: CellBoard4Snakes11x11 = CellBoard::convert_from_game(start_of_game(), &m).unwrap();
    assert_eq!(b1, b2);
}

#[test]
fn cell_index_round_trip() {
    let idx = CellIndex(6 * 11 + 4);
    let pos = idx.into_position(11);
    assert_eq!(pos, Position { x: 4, y: 6 });
    assert_eq!(CellIndex::new(pos, 11), idx);
}

#[test]
fn wrapped_games_rejected() {
    let mut g = tiny_board();
    g.ruleset_name = "wrapped".to_owned();
    let m = build_snake_id_map(&g);
    let r: Result<CellBoard4Snakes11x11, _> = CellBoard::convert_from_game(g, &m);
    assert_eq!(r.unwrap_err(), ConvertError::WrappedGamesNotSupported);
}

#[test]
fn oversized_game_rejected() {
    let mut g = start_of_game();
    g.width = 12;
    g.height = 12;
    let m = build_snake_id_map(&g);
    let r: Result<CellBoard4Snakes11x11, _> = CellBoard::convert_from_game(g, &m);
    assert_eq!(r.unwrap_err(), ConvertError::GameTooBigForBoard);
}

#[test]
fn too_many_snakes_rejected() {
    let mut g = tiny_board();
    g.snakes = vec![
        snake("a", 100, &[(0, 0)]),
        snake("b", 100, &[(2, 0)]),
        snake("c", 100, &[(4, 0)]),
        snake("d", 100, &[(6, 0)]),
        snake("e", 100, &[(0, 2)]),
    ];
    let m = build_snake_id_map(&g);
    let r: Result<compact_board::select::CellBoard4Snakes7x7, _> =
        CellBoard::convert_from_game(g, &m);
    assert_eq!(r.unwrap_err(), ConvertError::TooManySnakes);
}

#[test]
fn bad_body_stack_rejected() {
    let mut g = tiny_board();
    g.snakes = vec![snake("one", 100, &[(3, 3), (3, 3), (3, 3), (2, 3)])];
    let m = build_snake_id_map(&g);
    let r: Result<compact_board::select::CellBoard4Snakes7x7, _> =
        CellBoard::convert_from_game(g, &m);
    assert_eq!(r.unwrap_err(), ConvertError::BadBodyStack);
}

#[test]
fn board_size_selection_tiers() {
    let converted = Game::to_best_cell_board(Game {
        width: 7,
        height: 7,
        snakes: vec![
            snake("a", 100, &[(0, 0), (0, 0), (0, 0)]),
            snake("b", 100, &[(2, 0), (2, 0), (2, 0)]),
            snake("c", 100, &[(4, 0), (4, 0), (4, 0)]),
            snake("d", 100, &[(6, 0), (6, 0), (6, 0)]),
        ],
        food: vec![],
        hazards: vec![],
        ruleset_name: "standard".to_owned(),
        hazard_damage_per_turn: None,
    });
    match converted.unwrap() {
        BestCellBoard::Tiny(_) => {}
        _ => panic!("expected the smallest tier"),
    }

    let converted = Game::to_best_cell_board(Game {
        width: 12,
        height: 12,
        snakes: vec![snake("a", 100, &[(0, 0), (0, 0), (0, 0)])],
        food: vec![],
        hazards: vec![],
        ruleset_name: "standard".to_owned(),
        hazard_damage_per_turn: None,
    });
    match converted.unwrap() {
        BestCellBoard::LargestU8(_) => {}
        _ => panic!("expected the tier one up"),
    }
}

#[test]
fn overstacked_body_rejected() {
    let mut g = tiny_board();
    g.snakes = vec![snake("one", 100, &[(3, 3), (3, 3), (3, 3), (3, 3)])];
    let m = build_snake_id_map(&g);
    let r: Result<compact_board::select::CellBoard4Snakes7x7, _> =
        CellBoard::convert_from_game(g, &m);
    assert_eq!(r.unwrap_err(), ConvertError::BadBodyStack);
}

#[test]
fn tall_narrow_board_selects_by_larger_dimension() {
    let converted = Game::to_best_cell_board(Game {
        width: 7,
        height: 20,
        snakes: vec![snake("one", 100, &[(3, 3), (3, 3), (3, 3)])],
        food: vec![],
        hazards: vec![],
        ruleset_name: "standard".to_owned(),
        hazard_damage_per_turn: None,
    });
    match converted.unwrap() {
        BestCellBoard::Large(_) => {}
        _ => panic!("expected the 25x25 tier"),
    }
}
