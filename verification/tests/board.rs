use chess_lib::board::directions::{
    is_diagonal, is_straight, reverse, ALL, DIAGONALS, DOWN, DOWN_LEFT, DOWN_RIGHT, KNIGHT, LEFT,
    RIGHT, STRAIGHTS, UP, UP_LEFT, UP_RIGHT,
};
use chess_lib::board::{coord, empty_board, is_in_bounds, rank, Direction, Line};
use chess_lib::types::{Coordinate, Square};

fn generate_line(orig: Coordinate, dir: Direction) -> Vec<Coordinate> {
    let mut line = Line::new(orig, dir);
    let mut coords: Vec<Coordinate> = Vec::with_capacity(8);
    while let Some(c) = line.next() {
        coords.push(c);
    }
    coords
}

#[test]
fn coord_from_rank_and_file() {
    assert_eq!(coord(0, 0), 0x00);
    assert_eq!(coord(3, 5), 0x35);
    assert_eq!(coord(6, 7), 0x67);
}

#[test]
fn line_right() {
    assert_eq!(generate_line(0x00, RIGHT), vec![0x10, 0x20, 0x30, 0x40, 0x50, 0x60, 0x70]);
    assert_eq!(generate_line(0x50, RIGHT), vec![0x60, 0x70]);
    assert_eq!(generate_line(0x70, RIGHT), vec![]);
    assert_eq!(generate_line(0x27, RIGHT), vec![0x37, 0x47, 0x57, 0x67, 0x77]);
}

#[test]
fn line_left() {
    assert_eq!(generate_line(0x00, LEFT), vec![]);
    assert_eq!(generate_line(0x50, LEFT), vec![0x40, 0x30, 0x20, 0x10, 0x00]);
    assert_eq!(generate_line(0x70, LEFT), vec![0x60, 0x50, 0x40, 0x30, 0x20, 0x10, 0x00]);
    assert_eq!(generate_line(0x27, LEFT), vec![0x17, 0x07]);
}

#[test]
fn line_up() {
    assert_eq!(generate_line(0x00, UP), vec![0x01, 0x02, 0x03, 0x04, 0x05, 0x06, 0x07]);
    assert_eq!(generate_line(0x70, UP), vec![0x71, 0x72, 0x73, 0x74, 0x75, 0x76, 0x77]);
    assert_eq!(generate_line(0x45, UP), vec![0x46, 0x47]);
    assert_eq!(generate_line(0x67, UP), vec![]);
}

#[test]
fn line_down() {
    assert_eq!(generate_line(0x00, DOWN), vec![]);
    assert_eq!(generate_line(0x70, DOWN), vec![]);
    assert_eq!(generate_line(0x45, DOWN), vec![0x44, 0x43, 0x42, 0x41, 0x40]);
    assert_eq!(generate_line(0x67, DOWN), vec![0x66, 0x65, 0x64, 0x63, 0x62, 0x61, 0x60]);
}

#[test]
fn line_up_right() {
    assert_eq!(generate_line(0x00, UP_RIGHT), vec![0x11, 0x22, 0x33, 0x44, 0x55, 0x66, 0x77]);
    assert_eq!(generate_line(0x70, UP_RIGHT), vec![]);
    assert_eq!(generate_line(0x41, UP_RIGHT), vec![0x52, 0x63, 0x74]);
    assert_eq!(generate_line(0x05, UP_RIGHT), vec![0x16, 0x27]);
}

#[test]
fn line_up_left() {
    assert_eq!(generate_line(0x00, UP_LEFT), vec![]);
    assert_eq!(generate_line(0x70, UP_LEFT), vec![0x61, 0x52, 0x43, 0x34, 0x25, 0x16, 0x07]);
    assert_eq!(generate_line(0x41, UP_LEFT), vec![0x32, 0x23, 0x14, 0x05]);
    assert_eq!(generate_line(0x66, UP_LEFT), vec![0x57]);
}

#[test]
fn line_down_right() {
    assert_eq!(generate_line(0x00, DOWN_RIGHT), vec![]);
    assert_eq!(generate_line(0x12, DOWN_RIGHT), vec![0x21, 0x30]);
    assert_eq!(generate_line(0x07, DOWN_RIGHT), vec![0x16, 0x25, 0x34, 0x43, 0x52, 0x61, 0x70]);
    assert_eq!(generate_line(0x57, DOWN_RIGHT), vec![0x66, 0x75]);
}

#[test]
fn line_down_left() {
    assert_eq!(generate_line(0x00, DOWN_LEFT), vec![]);
    assert_eq!(generate_line(0x12, DOWN_LEFT), vec![0x01]);
    assert_eq!(generate_line(0x77, DOWN_LEFT), vec![0x66, 0x55, 0x44, 0x33, 0x22, 0x11, 0x00]);
    assert_eq!(generate_line(0x72, DOWN_LEFT), vec![0x61, 0x50]);
}

#[test]
fn mailbox_parts_of_a_coordinate() {
    assert_eq!(chess_lib::board::file(0x35), 3);
    assert_eq!(rank(0x35), 5);
    assert!(is_in_bounds(0x77));
    assert!(!is_in_bounds(0x78));
    assert!(!is_in_bounds(0x80));
    assert!(empty_board().iter().all(|s| *s == Square::Empty));
    assert_eq!(empty_board().len(), 120);
}

#[test]
fn directions_by_kind() {
    assert!(STRAIGHTS.iter().all(|d| is_straight(*d) && !is_diagonal(*d)));
    assert!(DIAGONALS.iter().all(|d| is_diagonal(*d) && !is_straight(*d)));
    assert!(ALL.iter().all(|d| is_straight(*d) != is_diagonal(*d)));
    assert!(KNIGHT.iter().all(|d| !is_straight(*d) && !is_diagonal(*d)));
    assert_eq!(reverse(UP), DOWN);
    assert_eq!(reverse(LEFT), RIGHT);
    assert_eq!(reverse(UP_RIGHT), DOWN_LEFT);
    assert_eq!(reverse(UP_LEFT), DOWN_RIGHT);
    assert_eq!(KNIGHT[0], RIGHT.wrapping_add(UP.wrapping_mul(2)));
    assert_eq!(KNIGHT[7], DOWN.wrapping_add(RIGHT.wrapping_mul(2)));
}
