use habits_display::display::{MessageBoard, CENTER_Y};

#[test]
fn one_message_is_centred() {
    let mut board = MessageBoard::new();
    board.push("a");
    assert_eq!(board.placements(), vec![(2, CENTER_Y)]);
}

#[test]
fn messages_stack_around_the_centre() {
    let mut board = MessageBoard::new();
    board.push("a");
    board.push("b");
    assert_eq!(board.placements(), vec![(1, 140), (2, 180)]);
    board.push("c");
    assert_eq!(board.placements(), vec![(0, 120), (1, 160), (2, 200)]);
}

#[test]
fn law_board_keeps_last_three_example() {
    let mut board = MessageBoard::new();
    for m in ["a", "b", "c", "d", "e"] {
        board.push(m);
    }
    assert_eq!(board.slot(0), &Some("c"));
    assert_eq!(board.slot(1), &Some("d"));
    assert_eq!(board.slot(2), &Some("e"));
}

#[test]
fn empty_board_draws_nothing() {
    let board: MessageBoard<&str> = MessageBoard::new();
    assert!(board.placements().is_empty());
    assert_eq!(board.slot(2), &None);
}

#[test]
fn law_lines_centred_example() {
    let mut board = MessageBoard::new();
    board.push(1u8);
    board.push(2u8);
    board.push(3u8);
    let p = board.placements();
    assert_eq!(p[0].1 + p[2].1, 2 * CENTER_Y);
    assert_eq!(p[1].1 - p[0].1, 40);
}

#[test]
fn law_board_shows_latest_example() {
    let mut board = MessageBoard::new();
    board.push("a");
    assert_eq!(board.slot(0), &None);
    assert_eq!(board.slot(1), &None);
    assert_eq!(board.slot(2), &Some("a"));
    board.push("b");
    assert_eq!(board.slot(1), &Some("a"));
    assert_eq!(board.placements(), vec![(1, 140), (2, 180)]);
    board.push("c");
    board.push("d");
    assert_eq!(board.slot(0), &Some("b"));
    assert_eq!(board.slot(2), &Some("d"));
    assert_eq!(board.placements(), vec![(0, 120), (1, 160), (2, 200)]);
}
