use snake_game::types::{Direction, Position, Snake};

#[test]
fn position_new_sets_fields() {
    let p = Position::new(3, -7);
    assert_eq!(p.x, 3);
    assert_eq!(p.y, -7);
}

#[test]
fn position_bounds() {
    assert!(Position::new(0, 0).is_in_bounds(10));
    assert!(Position::new(9, 9).is_in_bounds(10));
    assert!(!Position::new(10, 0).is_in_bounds(10));
    assert!(!Position::new(0, 10).is_in_bounds(10));
    assert!(!Position::new(-1, 5).is_in_bounds(10));
}

fn snake(id: usize, body: Vec<Position>) -> Snake {
    Snake { id, body, direction: Direction::Up, alive: true, score: 0 }
}

#[test]
fn head_is_first_segment() {
    let s = snake(1, vec![Position::new(2, 2), Position::new(2, 3)]);
    assert_eq!(s.head(), Some(&Position::new(2, 2)));
    let empty = snake(1, vec![]);
    assert_eq!(empty.head(), None);
}

#[test]
fn hits_self_detects_collision_with_own_body() {
    let clear = snake(1, vec![Position::new(0, 0), Position::new(0, 1), Position::new(1, 1)]);
    assert!(!clear.hits_self());
    let looped = snake(
        1,
        vec![Position::new(0, 0), Position::new(0, 1), Position::new(0, 0)],
    );
    assert!(looped.hits_self());
    assert!(!snake(1, vec![]).hits_self());
}

#[test]
fn hits_other_detects_collision_with_another_snake() {
    let a = snake(1, vec![Position::new(5, 5)]);
    let b = snake(2, vec![Position::new(4, 5), Position::new(5, 5)]);
    assert!(a.hits_other(&b));
    let c = snake(3, vec![Position::new(0, 0)]);
    assert!(!a.hits_other(&c));
    // a snake never collides with itself through this check
    assert!(!a.hits_other(&a));
}
