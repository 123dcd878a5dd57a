use snake_core::snake::{Direction, Snake};

#[test]
fn opposite_pairs() {
    assert_eq!(Direction::Up.opposite(), Direction::Down);
    assert_eq!(Direction::Down.opposite(), Direction::Up);
    assert_eq!(Direction::Left.opposite(), Direction::Right);
    assert_eq!(Direction::Right.opposite(), Direction::Left);
}

#[test]
fn opposite_is_involutive() {
    for d in [Direction::Up, Direction::Down, Direction::Left, Direction::Right] {
        assert_eq!(d.opposite().opposite(), d);
    }
}

#[test]
fn new_snake_shape() {
    let s = Snake::new(2, 2);
    assert_eq!(s.len(), 3);
    assert_eq!(s.block_at(0), (4, 2));
    assert_eq!(s.block_at(1), (3, 2));
    assert_eq!(s.block_at(2), (2, 2));
    assert_eq!(s.head_position(), (4, 2));
    assert_eq!(s.head_direction(), Direction::Right);
}

#[test]
fn next_head_in_each_direction() {
    let s = Snake::new(2, 2);
    assert_eq!(s.next_head(None), (5, 2));
    assert_eq!(s.next_head(Some(Direction::Up)), (4, 1));
    assert_eq!(s.next_head(Some(Direction::Down)), (4, 3));
    assert_eq!(s.next_head(Some(Direction::Left)), (3, 2));
    assert_eq!(s.next_head(Some(Direction::Right)), (5, 2));
}

#[test]
fn head_after_move_matches_next_head() {
    let mut s = Snake::new(2, 2);
    let announced = s.next_head(None);
    s.move_forward(None);
    assert_eq!(s.head_position(), announced);

    let announced = s.next_head(Some(Direction::Down));
    s.move_forward(Some(Direction::Down));
    assert_eq!(s.head_position(), announced);
    assert_eq!(s.head_direction(), Direction::Down);
}

#[test]
fn plain_move_keeps_length() {
    let mut s = Snake::new(2, 2);
    assert_eq!(s.len(), 3);
    s.move_forward(None);
    assert_eq!(s.len(), 3);
    s.move_forward(Some(Direction::Up));
    assert_eq!(s.len(), 3);
}

#[test]
fn move_then_restore_grows_by_one() {
    let mut s = Snake::new(2, 2);
    s.move_forward(None);
    assert_eq!(s.len(), 3);
    s.restore_tail();
    assert_eq!(s.len(), 4);
    assert_eq!(s.block_at(0), (5, 2));
    assert_eq!(s.block_at(3), (2, 2));
}

#[test]
fn restore_tail_before_first_move_does_nothing() {
    let mut s = Snake::new(2, 2);
    s.restore_tail();
    assert_eq!(s.len(), 3);
}

#[test]
fn overlap_tail_spares_the_tail_cell() {
    let s = Snake::new(2, 2);
    assert!(s.overlap_tail(4, 2));
    assert!(s.overlap_tail(3, 2));
    assert!(!s.overlap_tail(2, 2));
    assert!(!s.overlap_tail(9, 9));
}

#[test]
fn occupies_covers_the_whole_body() {
    let s = Snake::new(2, 2);
    assert!(s.occupies(4, 2));
    assert!(s.occupies(3, 2));
    assert!(s.occupies(2, 2));
    assert!(!s.occupies(5, 2));
}
