use snake_game::snake::{Block, Direction, Snake};

#[test]
fn opposite_maps_each_direction() {
    assert_eq!(Direction::Up.opposite(), Direction::Down);
    assert_eq!(Direction::Down.opposite(), Direction::Up);
    assert_eq!(Direction::Left.opposite(), Direction::Right);
    assert_eq!(Direction::Right.opposite(), Direction::Left);
}

fn body_of(s: &Snake) -> Vec<(i32, i32)> {
    let mut cells: Vec<(i32, i32)> = Vec::new();
    let mut i: usize = 0;
    while i < s.len() {
        let b: Block = s.block_at(i);
        cells.push((b.x, b.y));
        i += 1;
    }
    cells
}

#[test]
fn new_snake_initial_configuration() {
    let s = Snake::new(2, 2);
    assert_eq!(s.len(), 3);
    assert_eq!(body_of(&s), vec![(4, 2), (3, 2), (2, 2)]);
    assert_eq!(s.head_direction(), Direction::Right);
    assert_eq!(s.head_position(), (4, 2));
}

#[test]
fn next_head_matches_heading() {
    let s = Snake::new(2, 2);
    assert_eq!(s.next_head(None), (5, 2));
    assert_eq!(s.next_head(Some(Direction::Up)), (4, 1));
    assert_eq!(s.next_head(Some(Direction::Down)), (4, 3));
    assert_eq!(s.next_head(Some(Direction::Left)), (3, 2));
    assert_eq!(s.next_head(Some(Direction::Right)), (5, 2));
}

#[test]
fn move_forward_keeps_length() {
    let mut s = Snake::new(2, 2);
    s.move_forward(None);
    assert_eq!(s.len(), 3);
    assert_eq!(body_of(&s), vec![(5, 2), (4, 2), (3, 2)]);
    assert_eq!(s.head_direction(), Direction::Right);
}

#[test]
fn move_forward_takes_given_direction() {
    let mut s = Snake::new(2, 2);
    s.move_forward(Some(Direction::Down));
    assert_eq!(s.head_direction(), Direction::Down);
    assert_eq!(body_of(&s), vec![(4, 3), (4, 2), (3, 2)]);
}

#[test]
fn restore_tail_grows_by_one() {
    let mut s = Snake::new(2, 2);
    s.move_forward(None);
    assert_eq!(s.len(), 3);
    s.restore_tail();
    assert_eq!(s.len(), 4);
    assert_eq!(body_of(&s), vec![(5, 2), (4, 2), (3, 2), (2, 2)]);
}

#[test]
fn overlap_tail_spares_the_tail_cell() {
    let s = Snake::new(2, 2);
    assert!(s.overlap_tail(4, 2));
    assert!(s.overlap_tail(3, 2));
    assert!(!s.overlap_tail(2, 2));
    assert!(!s.overlap_tail(5, 5));
}
