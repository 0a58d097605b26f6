use compact_board::cell::{Cell, CellIndex, SnakeId, KIND_MASK, KIND_TRIPLE};

#[test]
fn test_set_hazard() {
    let mut c: Cell = Cell::empty();
    c.set_food();
    assert!(c.is_food());
    c.set_hazard();
    assert!(c.is_food());
    assert!(c.is_hazard());
    assert!(!c.is_head());
    assert!(!c.is_body());
}

#[test]
fn test_clear_hazard() {
    let mut c: Cell = Cell::empty();
    c.set_food();
    assert!(c.is_food());
    c.set_hazard();
    c.clear_hazard();
    assert!(c.is_food());
    assert!(!c.is_hazard());
    assert!(!c.is_head());
    assert!(!c.is_body());
    let mut c: Cell = Cell::make_double_stacked_piece(SnakeId(0), CellIndex(0));
    c.set_hazard();
    c.clear_hazard();
    assert!(c.is_body());
    assert!(!c.is_hazard());
}

#[test]
fn test_remove() {
    let mut c: Cell = Cell::make_body_piece(SnakeId(3), CellIndex(17));
    c.remove();
    c.set_hazard();
    assert!(c.is_empty());
    assert!(c.is_hazard());
    assert!(c.get_snake_id().is_none());
    assert!(c.get_idx() == CellIndex(0));
}

#[test]
fn test_set_food() {
    let mut c: Cell = Cell::empty();
    c.set_food();
    c.set_hazard();
    assert!(c.is_food());
    assert!(c.is_hazard());
    assert!(c.get_snake_id().is_none());
    assert!(c.get_idx() == CellIndex(0));
}

#[test]
fn test_set_head() {
    let mut c: Cell = Cell::empty();
    c.set_head(SnakeId(3), CellIndex(17));
    c.set_hazard();
    assert!(c.is_head());
    assert!(c.is_hazard());
    assert!(c.get_snake_id().unwrap() == SnakeId(3));
    assert!(c.get_idx() == CellIndex(17));
}

#[test]
fn hazard_toggle_keeps_occupancy() {
    let mut c: Cell = Cell::make_snake_head(SnakeId(2), CellIndex(9));
    let before_id = c.get_snake_id();
    c.set_hazard();
    assert_eq!(c.get_snake_id(), before_id);
    assert!(c.is_head());
    c.clear_hazard();
    assert_eq!(c.get_snake_id(), before_id);
    assert!(c.is_head());
    c.set_food();
    assert!(!c.is_hazard());
}

#[test]
fn triple_stack_survives_flags() {
    let mut c: Cell = Cell::make_triple_stacked_piece(SnakeId(1));
    c.set_hazard();
    c.clear_hazard();
    assert!(c.is_body());
    assert!(!c.is_hazard());
    assert_eq!(c.flags & KIND_MASK, KIND_TRIPLE);
}
