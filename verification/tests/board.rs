use tetris_rust::block::Block;
use tetris_rust::board::{Board, InvalidPlacement};

/// A board with the given rows, top row first; 0 is an empty cell.
fn board_from(rows: &[&[i32]]) -> Board<i32> {
    let mut board = Board::new(rows[0].len(), rows.len());
    for (y, row) in rows.iter().enumerate() {
        assert_eq!(row.len(), rows[0].len());
        for (x, &cell) in row.iter().enumerate() {
            if cell != 0 {
                board.set(x, y, cell);
            }
        }
    }
    board
}

/// The rows of a board, top row first; 0 is an empty cell.
fn rows_of(board: &Board<i32>) -> Vec<Vec<i32>> {
    (0..board.height())
        .map(|y| {
            (0..board.width())
                .map(|x| board.get(x, y).unwrap_or(0))
                .collect()
        })
        .collect()
}

fn rows(rows: &[&[i32]]) -> Vec<Vec<i32>> {
    rows.iter().map(|row| row.to_vec()).collect()
}

#[test]
fn test_board_new() {
    let board = Board::<()>::new(4, 8);
    for x in 0..4 {
        for y in 0..8 {
            assert_eq!(board.get(x, y), &None);
        }
    }
}

#[test]
fn test_board_clear_rows() {
    let mut board = Board::<()>::new(4, 8);

    // row 5 and 7 is full, row 6 is not
    board.set(0, 5, ());
    board.set(1, 5, ());
    board.set(2, 5, ());
    board.set(3, 5, ());
    board.set(0, 6, ());
    board.set(1, 6, ());
    board.set(3, 6, ());
    board.set(0, 7, ());
    board.set(1, 7, ());
    board.set(2, 7, ());
    board.set(3, 7, ());

    board.clear_filled_rows();

    for x in 0..4 {
        for y in 0..7 {
            assert_eq!(board.get(x, y), &None);
        }
    }
    assert_eq!(board.get(0, 7), &Some(()));
    assert_eq!(board.get(1, 7), &Some(()));
    assert_eq!(board.get(2, 7), &None);
    assert_eq!(board.get(3, 7), &Some(()));
}

#[test]
fn test_board_macro() {
    let b = board_from(&[
        &[0, 2, 0], //
        &[1, 1, 1],
    ]);

    assert_eq!(b.width(), 3);
    assert_eq!(b.height(), 2);
    assert_eq!(b.get(0, 0), &None);
    assert_eq!(b.get(1, 0), &Some(2));
    assert_eq!(b.get(2, 0), &None);
    assert_eq!(b.get(0, 1), &Some(1));
    assert_eq!(b.get(1, 1), &Some(1));
    assert_eq!(b.get(2, 1), &Some(1));
}

#[test]
fn test_check_block() {
    let board = board_from(&[
        &[0, 0, 0], //
        &[0, 0, 0],
        &[0, 1, 1],
        &[0, 1, 1],
    ]);

    assert!(board.check_block(&Block::new(Block::I)).is_err());
    assert!(board
        .check_block(&Block::new(Block::I).rotate_about((0, 0)))
        .is_ok());
    assert!(board
        .check_block(&Block::new(Block::I).rotate_about((0, 0)).down())
        .is_err());

    assert!(board.check_block(&Block::new(Block::O)).is_ok());
    assert!(board.check_block(&Block::new(Block::O).down()).is_err());
    assert!(board
        .check_block(&Block::new(Block::O).right().right())
        .is_err());
}

#[test]
fn test_set_block() {
    let gen_board = || {
        board_from(&[
            &[0, 0, 0, 0, 0],
            &[0, 0, 0, 0, 0],
            &[0, 0, 0, 0, 0],
            &[0, 1, 0, 1, 1],
            &[1, 1, 1, 0, 1],
        ])
    };

    let mut board = gen_board();
    assert!(board.set_block(Block::new(Block::Z), 2).is_ok());
    assert_eq!(
        rows_of(&board),
        rows(&[
            &[2, 2, 0, 0, 0],
            &[0, 2, 2, 0, 0],
            &[0, 0, 0, 0, 0],
            &[0, 1, 0, 1, 1],
            &[1, 1, 1, 0, 1],
        ])
    );

    let mut board = gen_board();
    assert!(board.set_block(Block::new(Block::L), 2).is_ok());
    assert_eq!(
        rows_of(&board),
        rows(&[
            &[2, 0, 0, 0, 0],
            &[2, 0, 0, 0, 0],
            &[2, 2, 0, 0, 0],
            &[0, 1, 0, 1, 1],
            &[1, 1, 1, 0, 1],
        ])
    );

    let mut board = gen_board();
    assert!(board.set_block(Block::new(Block::L).down(), 2).is_err());
    assert_eq!(
        rows_of(&board),
        rows(&[
            &[0, 0, 0, 0, 0],
            &[0, 0, 0, 0, 0],
            &[0, 0, 0, 0, 0],
            &[0, 1, 0, 1, 1],
            &[1, 1, 1, 0, 1],
        ])
    );

    let mut board = gen_board();
    assert!(board
        .set_block(Block::new(Block::I).translate(2, 0), 2)
        .is_err());
    assert_eq!(
        rows_of(&board),
        rows(&[
            &[0, 0, 0, 0, 0],
            &[0, 0, 0, 0, 0],
            &[0, 0, 0, 0, 0],
            &[0, 1, 0, 1, 1],
            &[1, 1, 1, 0, 1],
        ])
    );
}

#[test]
fn test_update_block() {
    let mut board = board_from(&[
        &[0, 0, 0, 0, 0],
        &[0, 0, 0, 0, 0],
        &[0, 0, 0, 0, 0],
        &[0, 1, 0, 1, 1],
        &[1, 1, 1, 0, 1],
    ]);

    assert!(board.set_block(Block::new(Block::I), 2).is_ok());
    assert_eq!(
        rows_of(&board),
        rows(&[
            &[2, 2, 2, 2, 0],
            &[0, 0, 0, 0, 0],
            &[0, 0, 0, 0, 0],
            &[0, 1, 0, 1, 1],
            &[1, 1, 1, 0, 1],
        ])
    );
    assert!(board.update_block(|b| b.down()).is_ok());
    assert_eq!(
        rows_of(&board),
        rows(&[
            &[0, 0, 0, 0, 0],
            &[2, 2, 2, 2, 0],
            &[0, 0, 0, 0, 0],
            &[0, 1, 0, 1, 1],
            &[1, 1, 1, 0, 1],
        ])
    );
    assert!(board.update_block(|b| b.rotate()).is_err());
    assert_eq!(
        rows_of(&board),
        rows(&[
            &[0, 0, 0, 0, 0],
            &[2, 2, 2, 2, 0],
            &[0, 0, 0, 0, 0],
            &[0, 1, 0, 1, 1],
            &[1, 1, 1, 0, 1],
        ])
    );
    assert!(board
        .update_block(|b| b.translate(0, -1).rotate_about((0, 0)))
        .is_ok());
    assert_eq!(
        rows_of(&board),
        rows(&[
            &[2, 0, 0, 0, 0],
            &[2, 0, 0, 0, 0],
            &[2, 0, 0, 0, 0],
            &[2, 1, 0, 1, 1],
            &[1, 1, 1, 0, 1],
        ])
    );
}

#[test]
fn test_spawn() {
    let mut board = board_from(&[
        &[0, 0, 0, 0, 0],
        &[0, 0, 0, 0, 0],
        &[0, 0, 0, 0, 0],
        &[0, 0, 0, 0, 0],
    ]);
    assert!(board.spawn(Block::new(Block::I), 1).is_ok());
    assert_eq!(
        rows_of(&board),
        rows(&[
            &[0, 1, 1, 1, 1],
            &[0, 0, 0, 0, 0],
            &[0, 0, 0, 0, 0],
            &[0, 0, 0, 0, 0],
        ])
    );
    assert!(board.spawn(Block::new(Block::O), 2).is_err());

    let mut board2 = board_from(&[
        &[0, 0, 0, 0, 0],
        &[0, 0, 0, 0, 0],
        &[0, 0, 0, 0, 0],
        &[0, 0, 0, 0, 0],
    ]);
    assert!(board2.spawn(Block::new(Block::J), 1).is_ok());
    assert_eq!(
        rows_of(&board2),
        rows(&[
            &[0, 0, 1, 0, 0],
            &[0, 0, 1, 0, 0],
            &[0, 1, 1, 0, 0],
            &[0, 0, 0, 0, 0],
        ])
    );

    let mut board3 = board_from(&[
        &[0, 0, 0, 0, 0],
        &[0, 0, 0, 0, 0],
        &[0, 0, 0, 0, 0],
        &[0, 0, 0, 0, 0],
    ]);
    assert!(board3.spawn(Block::new(Block::Z), 1).is_ok());
    assert_eq!(
        rows_of(&board3),
        rows(&[
            &[0, 1, 1, 0, 0],
            &[0, 0, 1, 1, 0],
            &[0, 0, 0, 0, 0],
            &[0, 0, 0, 0, 0],
        ])
    );
}

#[test]
fn test_actions() {
    let mut board = board_from(&[
        &[0, 0, 0, 0, 0, 0, 0, 0],
        &[0, 0, 0, 0, 0, 0, 0, 0],
        &[0, 0, 0, 0, 0, 0, 0, 0],
        &[0, 0, 0, 0, 0, 0, 0, 0],
        &[0, 0, 0, 0, 0, 0, 0, 0],
        &[0, 1, 0, 0, 0, 0, 0, 0],
        &[0, 1, 0, 1, 1, 1, 1, 1],
        &[1, 1, 1, 0, 1, 1, 1, 1],
    ]);

    assert!(board.spawn(Block::new(Block::I), 2).is_ok());
    assert_eq!(
        rows_of(&board),
        rows(&[
            &[0, 0, 0, 2, 2, 2, 2, 0],
            &[0, 0, 0, 0, 0, 0, 0, 0],
            &[0, 0, 0, 0, 0, 0, 0, 0],
            &[0, 0, 0, 0, 0, 0, 0, 0],
            &[0, 0, 0, 0, 0, 0, 0, 0],
            &[0, 1, 0, 0, 0, 0, 0, 0],
            &[0, 1, 0, 1, 1, 1, 1, 1],
            &[1, 1, 1, 0, 1, 1, 1, 1],
        ])
    );
    assert!(board.down().is_ok());
    assert_eq!(
        rows_of(&board),
        rows(&[
            &[0, 0, 0, 0, 0, 0, 0, 0],
            &[0, 0, 0, 2, 2, 2, 2, 0],
            &[0, 0, 0, 0, 0, 0, 0, 0],
            &[0, 0, 0, 0, 0, 0, 0, 0],
            &[0, 0, 0, 0, 0, 0, 0, 0],
            &[0, 1, 0, 0, 0, 0, 0, 0],
            &[0, 1, 0, 1, 1, 1, 1, 1],
            &[1, 1, 1, 0, 1, 1, 1, 1],
        ])
    );
    assert!(board.rotate().is_ok());
    assert_eq!(
        rows_of(&board),
        rows(&[
            &[0, 0, 0, 0, 2, 0, 0, 0],
            &[0, 0, 0, 0, 2, 0, 0, 0],
            &[0, 0, 0, 0, 2, 0, 0, 0],
            &[0, 0, 0, 0, 2, 0, 0, 0],
            &[0, 0, 0, 0, 0, 0, 0, 0],
            &[0, 1, 0, 0, 0, 0, 0, 0],
            &[0, 1, 0, 1, 1, 1, 1, 1],
            &[1, 1, 1, 0, 1, 1, 1, 1],
        ])
    );
    for _ in 0..4 {
        assert!(board.left().is_ok());
    }
    assert!(board.left().is_err());
    assert_eq!(
        rows_of(&board),
        rows(&[
            &[2, 0, 0, 0, 0, 0, 0, 0],
            &[2, 0, 0, 0, 0, 0, 0, 0],
            &[2, 0, 0, 0, 0, 0, 0, 0],
            &[2, 0, 0, 0, 0, 0, 0, 0],
            &[0, 0, 0, 0, 0, 0, 0, 0],
            &[0, 1, 0, 0, 0, 0, 0, 0],
            &[0, 1, 0, 1, 1, 1, 1, 1],
            &[1, 1, 1, 0, 1, 1, 1, 1],
        ])
    );
    board.drop();
    assert_eq!(
        rows_of(&board),
        rows(&[
            &[0, 0, 0, 0, 0, 0, 0, 0],
            &[0, 0, 0, 0, 0, 0, 0, 0],
            &[0, 0, 0, 0, 0, 0, 0, 0],
            &[2, 0, 0, 0, 0, 0, 0, 0],
            &[2, 0, 0, 0, 0, 0, 0, 0],
            &[2, 1, 0, 0, 0, 0, 0, 0],
            &[2, 1, 0, 1, 1, 1, 1, 1],
            &[1, 1, 1, 0, 1, 1, 1, 1],
        ])
    );
    assert!(board.spawn(Block::new(Block::Z), 3).is_ok());
    assert_eq!(
        rows_of(&board),
        rows(&[
            &[0, 0, 0, 3, 3, 0, 0, 0],
            &[0, 0, 0, 0, 3, 3, 0, 0],
            &[0, 0, 0, 0, 0, 0, 0, 0],
            &[2, 0, 0, 0, 0, 0, 0, 0],
            &[2, 0, 0, 0, 0, 0, 0, 0],
            &[2, 1, 0, 0, 0, 0, 0, 0],
            &[2, 1, 0, 1, 1, 1, 1, 1],
            &[1, 1, 1, 0, 1, 1, 1, 1],
        ])
    );
    assert!(board.down().is_ok());
    assert_eq!(
        rows_of(&board),
        rows(&[
            &[0, 0, 0, 0, 0, 0, 0, 0],
            &[0, 0, 0, 3, 3, 0, 0, 0],
            &[0, 0, 0, 0, 3, 3, 0, 0],
            &[2, 0, 0, 0, 0, 0, 0, 0],
            &[2, 0, 0, 0, 0, 0, 0, 0],
            &[2, 1, 0, 0, 0, 0, 0, 0],
            &[2, 1, 0, 1, 1, 1, 1, 1],
            &[1, 1, 1, 0, 1, 1, 1, 1],
        ])
    );
    assert!(board.rotate().is_ok());
    assert_eq!(
        rows_of(&board),
        rows(&[
            &[0, 0, 0, 0, 3, 0, 0, 0],
            &[0, 0, 0, 3, 3, 0, 0, 0],
            &[0, 0, 0, 3, 0, 0, 0, 0],
            &[2, 0, 0, 0, 0, 0, 0, 0],
            &[2, 0, 0, 0, 0, 0, 0, 0],
            &[2, 1, 0, 0, 0, 0, 0, 0],
            &[2, 1, 0, 1, 1, 1, 1, 1],
            &[1, 1, 1, 0, 1, 1, 1, 1],
        ])
    );
    assert!(board.right().is_ok());
    assert_eq!(
        rows_of(&board),
        rows(&[
            &[0, 0, 0, 0, 0, 3, 0, 0],
            &[0, 0, 0, 0, 3, 3, 0, 0],
            &[0, 0, 0, 0, 3, 0, 0, 0],
            &[2, 0, 0, 0, 0, 0, 0, 0],
            &[2, 0, 0, 0, 0, 0, 0, 0],
            &[2, 1, 0, 0, 0, 0, 0, 0],
            &[2, 1, 0, 1, 1, 1, 1, 1],
            &[1, 1, 1, 0, 1, 1, 1, 1],
        ])
    );
    assert!(board.left().is_ok());
    assert!(board.left().is_ok());
    board.drop();
    assert_eq!(
        rows_of(&board),
        rows(&[
            &[0, 0, 0, 0, 0, 0, 0, 0],
            &[0, 0, 0, 0, 0, 0, 0, 0],
            &[0, 0, 0, 0, 0, 0, 0, 0],
            &[2, 0, 0, 0, 0, 0, 0, 0],
            &[2, 0, 0, 3, 0, 0, 0, 0],
            &[2, 1, 3, 3, 0, 0, 0, 0],
            &[2, 1, 3, 1, 1, 1, 1, 1],
            &[1, 1, 1, 0, 1, 1, 1, 1],
        ])
    );
    board.clear_filled_rows();
    assert_eq!(
        rows_of(&board),
        rows(&[
            &[0, 0, 0, 0, 0, 0, 0, 0],
            &[0, 0, 0, 0, 0, 0, 0, 0],
            &[0, 0, 0, 0, 0, 0, 0, 0],
            &[0, 0, 0, 0, 0, 0, 0, 0],
            &[2, 0, 0, 0, 0, 0, 0, 0],
            &[2, 0, 0, 3, 0, 0, 0, 0],
            &[2, 1, 3, 3, 0, 0, 0, 0],
            &[1, 1, 1, 0, 1, 1, 1, 1],
        ])
    );
}

#[test]
fn new_board_has_its_size_and_no_content() {
    let board = Board::<i32>::new(7, 3);
    assert_eq!(board.width(), 7);
    assert_eq!(board.height(), 3);
    assert_eq!(rows_of(&board), vec![vec![0; 7]; 3]);

    let flat = Board::<i32>::new(4, 0);
    assert_eq!((flat.width(), flat.height()), (4, 0));
    let thin = Board::<i32>::new(0, 4);
    assert_eq!((thin.width(), thin.height()), (0, 4));
}

#[test]
fn set_and_clear_write_one_cell() {
    let mut board = Board::<i32>::new(3, 3);
    board.set(2, 1, 9);
    assert_eq!(
        rows_of(&board),
        rows(&[&[0, 0, 0], &[0, 0, 9], &[0, 0, 0]])
    );
    board.set(0, 2, 4);
    board.set(2, 1, 5);
    assert_eq!(
        rows_of(&board),
        rows(&[&[0, 0, 0], &[0, 0, 5], &[4, 0, 0]])
    );
    board.clear(2, 1);
    board.clear(1, 1);
    assert_eq!(
        rows_of(&board),
        rows(&[&[0, 0, 0], &[0, 0, 0], &[4, 0, 0]])
    );
    assert_eq!(board.get(0, 2), &Some(4));
}

#[test]
fn invalid_placement_says_what_failed() {
    let mut board = Board::<i32>::new(2, 2);
    let error = board.set_block(Block::new(Block::I), 1).unwrap_err();
    assert_eq!(error, InvalidPlacement);
    assert_eq!(error.message(), "invalid block location");
}

#[test]
fn check_block_rejects_each_edge_and_each_collision() {
    let board = board_from(&[
        &[0, 0, 0, 0], //
        &[0, 0, 0, 0],
        &[0, 0, 0, 7],
    ]);
    let dot = |x: i32, y: i32| Block::new(&[(x, y), (x, y), (x, y), (x, y)]);
    assert_eq!(board.check_block(&dot(0, 0)), Ok(()));
    assert_eq!(board.check_block(&dot(3, 1)), Ok(()));
    assert_eq!(board.check_block(&dot(2, 2)), Ok(()));
    assert_eq!(board.check_block(&dot(-1, 0)), Err(InvalidPlacement));
    assert_eq!(board.check_block(&dot(0, -1)), Err(InvalidPlacement));
    assert_eq!(board.check_block(&dot(4, 0)), Err(InvalidPlacement));
    assert_eq!(board.check_block(&dot(0, 3)), Err(InvalidPlacement));
    assert_eq!(board.check_block(&dot(3, 2)), Err(InvalidPlacement));
    assert_eq!(
        board.check_block(&dot(i32::MAX, i32::MAX)),
        Err(InvalidPlacement)
    );
    assert_eq!(
        board.check_block(&dot(i32::MIN, i32::MIN)),
        Err(InvalidPlacement)
    );
    // one bad cell among four is enough, wherever it stands
    assert!(board
        .check_block(&Block::new(&[(0, 0), (1, 0), (2, 0), (3, 2)]))
        .is_err());
    assert!(board
        .check_block(&Block::new(&[(3, 2), (1, 0), (2, 0), (0, 0)]))
        .is_err());
}

#[test]
fn check_block_changes_nothing() {
    let board = board_from(&[&[0, 3, 0], &[3, 3, 0]]);
    let before = rows_of(&board);
    let _ = board.check_block(&Block::new(Block::O));
    let _ = board.check_block(&Block::new(Block::O).right());
    assert_eq!(rows_of(&board), before);
}

#[test]
fn spawn_on_5x5_then_down_then_rotate() {
    let mut board = Board::<i32>::new(5, 5);
    assert!(board.spawn(Block::new(Block::I), 1).is_ok());
    assert_eq!(
        rows_of(&board),
        rows(&[
            &[0, 1, 1, 1, 1],
            &[0, 0, 0, 0, 0],
            &[0, 0, 0, 0, 0],
            &[0, 0, 0, 0, 0],
            &[0, 0, 0, 0, 0],
        ])
    );
    assert!(board.down().is_ok());
    assert_eq!(
        rows_of(&board),
        rows(&[
            &[0, 0, 0, 0, 0],
            &[0, 1, 1, 1, 1],
            &[0, 0, 0, 0, 0],
            &[0, 0, 0, 0, 0],
            &[0, 0, 0, 0, 0],
        ])
    );
    // pivot (2, 1): the strip turns to (2, 0), (2, 1), (2, 2), (2, 3), all free
    assert!(board.rotate().is_ok());
    assert_eq!(
        rows_of(&board),
        rows(&[
            &[0, 0, 1, 0, 0],
            &[0, 0, 1, 0, 0],
            &[0, 0, 1, 0, 0],
            &[0, 0, 1, 0, 0],
            &[0, 0, 0, 0, 0],
        ])
    );
    // the next turn would put a cell at x = -1... so check it against the edge
    assert!(board.left().is_ok());
    assert!(board.left().is_ok());
    assert_eq!(board.rotate(), Err(InvalidPlacement));
    assert_eq!(
        rows_of(&board),
        rows(&[
            &[1, 0, 0, 0, 0],
            &[1, 0, 0, 0, 0],
            &[1, 0, 0, 0, 0],
            &[1, 0, 0, 0, 0],
            &[0, 0, 0, 0, 0],
        ])
    );
}

#[test]
fn spawn_centres_the_topmost_cell() {
    for width in 5..12usize {
        let mut board = Board::<i32>::new(width, 4);
        assert!(board.spawn(Block::new(Block::I), 5).is_ok());
        let mid = width / 2;
        // topmost cell of I is (1, 0): it lands in column width / 2, and the
        // leftmost cell, x = 0, one column to the left of it
        let mut expected = vec![vec![0; width]; 4];
        for x in (mid - 1)..(mid + 3) {
            expected[0][x] = 5;
        }
        assert_eq!(rows_of(&board), expected);
    }
    // on four columns the strip would end in column 4
    let mut board = Board::<i32>::new(4, 4);
    assert_eq!(board.spawn(Block::new(Block::I), 5), Err(InvalidPlacement));
}

#[test]
fn spawn_puts_the_first_topmost_cell_in_row_zero() {
    // topmost cells are (2, 1) and (3, 1); the first of them is centred
    let shape = Block::new(&[(2, 3), (2, 1), (3, 1), (2, 2)]);
    let mut board = Board::<i32>::new(6, 4);
    assert!(board.spawn(shape, 8).is_ok());
    assert_eq!(
        rows_of(&board),
        rows(&[
            &[0, 0, 0, 8, 8, 0],
            &[0, 0, 0, 8, 0, 0],
            &[0, 0, 0, 8, 0, 0],
            &[0, 0, 0, 0, 0, 0],
        ])
    );
}

#[test]
fn spawn_fails_when_the_target_is_taken_or_off_the_board() {
    let mut board = board_from(&[
        &[0, 0, 0, 6], //
        &[0, 0, 0, 0],
    ]);
    assert_eq!(board.spawn(Block::new(Block::I), 1), Err(InvalidPlacement));
    assert_eq!(rows_of(&board), rows(&[&[0, 0, 0, 6], &[0, 0, 0, 0]]));

    // J is three rows tall
    let mut low = Board::<i32>::new(4, 2);
    assert_eq!(low.spawn(Block::new(Block::J), 1), Err(InvalidPlacement));
    assert_eq!(rows_of(&low), vec![vec![0; 4]; 2]);

    // I is four columns wide and starts one left of the middle
    let mut narrow = Board::<i32>::new(3, 3);
    assert_eq!(narrow.spawn(Block::new(Block::I), 1), Err(InvalidPlacement));

    let mut none = Board::<i32>::new(0, 0);
    assert_eq!(none.spawn(Block::new(Block::O), 1), Err(InvalidPlacement));
}

#[test]
fn spawn_of_a_far_shape_still_lands_in_the_middle() {
    let shape = Block::new(&[
        (i32::MIN, i32::MAX),
        (i32::MIN + 1, i32::MAX),
        (i32::MIN, i32::MAX - 1),
        (i32::MIN + 1, i32::MAX - 1),
    ]);
    let mut board = Board::<i32>::new(4, 3);
    assert!(board.spawn(shape, 2).is_ok());
    assert_eq!(
        rows_of(&board),
        rows(&[&[0, 0, 2, 2], &[0, 0, 2, 2], &[0, 0, 0, 0]])
    );
}

#[test]
fn spawn_locks_the_piece_that_was_falling() {
    let mut board = Board::<i32>::new(6, 6);
    assert!(board.spawn(Block::new(Block::O), 1).is_ok());
    board.drop();
    assert!(board.spawn(Block::new(Block::O), 2).is_ok());
    board.drop();
    assert_eq!(
        rows_of(&board),
        rows(&[
            &[0, 0, 0, 0, 0, 0],
            &[0, 0, 0, 0, 0, 0],
            &[0, 0, 0, 2, 2, 0],
            &[0, 0, 0, 2, 2, 0],
            &[0, 0, 0, 1, 1, 0],
            &[0, 0, 0, 1, 1, 0],
        ])
    );
}

#[test]
fn refused_moves_leave_the_board_as_it_was() {
    let mut board = board_from(&[
        &[0, 0, 0, 0],
        &[0, 0, 0, 0],
        &[9, 0, 0, 9],
        &[9, 9, 9, 9],
    ]);
    assert!(board.set_block(Block::new(Block::O).right().down(), 4).is_ok());
    let before = rows_of(&board);
    assert_eq!(
        before,
        rows(&[
            &[0, 0, 0, 0],
            &[0, 4, 4, 0],
            &[9, 4, 4, 9],
            &[9, 9, 9, 9],
        ])
    );
    assert_eq!(board.down(), Err(InvalidPlacement));
    assert_eq!(rows_of(&board), before);
    assert_eq!(board.update_block(|b| b.translate(0, 2)), Err(InvalidPlacement));
    assert_eq!(rows_of(&board), before);
    assert_eq!(board.update_block(|b| b.translate(-5, 0)), Err(InvalidPlacement));
    assert_eq!(rows_of(&board), before);
    assert_eq!(
        board.move_to(Block::new(Block::I).translate(0, 3)),
        Err(InvalidPlacement)
    );
    assert_eq!(rows_of(&board), before);
    // the piece is still the one that moves
    assert_eq!(board.update_block(|b| b.translate(0, -1)), Ok(()));
    assert_eq!(
        rows_of(&board),
        rows(&[
            &[0, 4, 4, 0],
            &[0, 4, 4, 0],
            &[9, 0, 0, 9],
            &[9, 9, 9, 9],
        ])
    );
}

#[test]
fn a_piece_may_move_onto_its_own_cells() {
    let mut board = Board::<i32>::new(6, 2);
    assert!(board.set_block(Block::new(Block::I), 3).is_ok());
    assert_eq!(board.right(), Ok(()));
    assert_eq!(rows_of(&board), rows(&[&[0, 3, 3, 3, 3, 0], &[0; 6]]));
    assert_eq!(board.move_to(Block::new(Block::I).right()), Ok(()));
    assert_eq!(rows_of(&board), rows(&[&[0, 3, 3, 3, 3, 0], &[0; 6]]));
}

#[test]
fn moves_never_touch_settled_cells() {
    let mut board = board_from(&[
        &[0, 0, 0, 0, 0],
        &[0, 0, 0, 0, 0],
        &[7, 0, 0, 0, 7],
        &[7, 7, 0, 7, 7],
    ]);
    let settled = rows_of(&board);
    assert!(board.spawn(Block::new(Block::T), 2).is_ok());
    let strip = |board: &Board<i32>| -> Vec<Vec<i32>> {
        rows_of(board)
            .into_iter()
            .map(|row| row.into_iter().map(|c| if c == 2 { 0 } else { c }).collect())
            .collect()
    };
    assert_eq!(strip(&board), settled);
    let steps: [fn(&mut Board<i32>) -> Result<(), InvalidPlacement>; 4] =
        [Board::left, Board::right, Board::down, Board::rotate];
    for round in 0..40usize {
        let _ = steps[(round * 7 + round / 3) % 4](&mut board);
        assert_eq!(strip(&board), settled);
        let drawn: usize = rows_of(&board)
            .iter()
            .map(|row| row.iter().filter(|&&c| c == 2).count())
            .sum();
        assert_eq!(drawn, 4);
    }
    board.drop();
    assert_eq!(strip(&board), settled);
}

#[test]
fn drop_goes_down_until_blocked() {
    let mut board = board_from(&[
        &[0, 0, 0, 0],
        &[0, 0, 0, 0],
        &[0, 0, 0, 0],
        &[0, 0, 0, 0],
        &[0, 0, 5, 0],
    ]);
    assert!(board.spawn(Block::new(Block::O), 1).is_ok());
    board.drop();
    assert_eq!(
        rows_of(&board),
        rows(&[
            &[0, 0, 0, 0],
            &[0, 0, 0, 0],
            &[0, 0, 1, 1],
            &[0, 0, 1, 1],
            &[0, 0, 5, 0],
        ])
    );
    assert_eq!(board.down(), Err(InvalidPlacement));
    // a second drop has nowhere to go
    board.drop();
    assert_eq!(board.get(2, 2), &Some(1));
    assert_eq!(board.get(2, 1), &None);
}

#[test]
fn clear_keeps_a_row_with_a_gap() {
    let mut board = Board::<i32>::new(4, 8);
    for x in [0, 1, 3] {
        board.set(x, 7, 1);
    }
    let before = rows_of(&board);
    assert_eq!(board.clear_filled_rows(), 0);
    assert_eq!(rows_of(&board), before);
    assert_eq!(board.height(), 8);
    assert_eq!(board.get(2, 7), &None);
}

#[test]
fn clear_counts_rows_and_keeps_height_and_order() {
    let mut board = board_from(&[
        &[1, 0, 0],
        &[2, 2, 2],
        &[0, 3, 0],
        &[4, 4, 4],
        &[5, 5, 5],
        &[0, 0, 6],
    ]);
    assert_eq!(board.clear_filled_rows(), 3);
    assert_eq!(board.height(), 6);
    assert_eq!(board.width(), 3);
    assert_eq!(
        rows_of(&board),
        rows(&[
            &[0, 0, 0],
            &[0, 0, 0],
            &[0, 0, 0],
            &[1, 0, 0],
            &[0, 3, 0],
            &[0, 0, 6],
        ])
    );
    assert_eq!(board.clear_filled_rows(), 0);
}

#[test]
fn clear_of_a_full_board_leaves_it_empty() {
    let mut board = board_from(&[&[1, 2], &[3, 4], &[5, 6]]);
    assert_eq!(board.clear_filled_rows(), 3);
    assert_eq!(rows_of(&board), vec![vec![0; 2]; 3]);

    let mut empty = Board::<i32>::new(3, 2);
    assert_eq!(empty.clear_filled_rows(), 0);
    assert_eq!(rows_of(&empty), vec![vec![0; 3]; 2]);
}

#[test]
fn clear_locks_the_falling_piece_and_takes_its_rows() {
    let mut board = board_from(&[
        &[0, 0, 0, 0],
        &[0, 0, 0, 0],
        &[0, 0, 0, 0],
        &[1, 1, 0, 0],
    ]);
    assert!(board.spawn(Block::new(Block::O), 2).is_ok());
    board.drop();
    assert_eq!(board.clear_filled_rows(), 1);
    assert_eq!(
        rows_of(&board),
        rows(&[
            &[0, 0, 0, 0],
            &[0, 0, 0, 0],
            &[0, 0, 0, 0],
            &[0, 0, 2, 2],
        ])
    );
    // what is left of the piece is settled: a new one spawns above it
    assert!(board.spawn(Block::new(Block::O), 3).is_ok());
    board.drop();
    assert_eq!(
        rows_of(&board),
        rows(&[
            &[0, 0, 0, 0],
            &[0, 0, 3, 3],
            &[0, 0, 3, 3],
            &[0, 0, 2, 2],
        ])
    );
}

#[test]
fn check_move_admits_the_piece_on_its_own_cells() {
    let mut board = board_from(&[
        &[0, 0, 0, 0],
        &[0, 0, 0, 0],
        &[0, 0, 0, 9],
    ]);
    assert!(board.set_block(Block::new(Block::O), 4).is_ok());
    let before = rows_of(&board);
    let piece = Block::new(Block::O);
    assert_eq!(board.check_move(&piece), Ok(()));
    assert_eq!(board.check_move(&piece.right()), Ok(()));
    assert_eq!(board.check_move(&piece.down()), Ok(()));
    assert_eq!(board.check_move(&piece.right().right()), Ok(()));
    assert_eq!(board.check_move(&piece.left()), Err(InvalidPlacement));
    assert_eq!(
        board.check_move(&piece.right().right().down()),
        Err(InvalidPlacement)
    );
    assert_eq!(board.check_move(&piece.down().down()), Err(InvalidPlacement));
    assert_eq!(rows_of(&board), before);
    // what check_move says is what move_to does
    assert_eq!(board.move_to(piece.right().right().down()), Err(InvalidPlacement));
    assert_eq!(board.move_to(piece.right().right()), Ok(()));
}

#[test]
fn try_down_asks_and_moves_nothing() {
    let mut board = Board::<i32>::new(4, 3);
    assert_eq!(board.try_down(), Err(InvalidPlacement));
    assert!(!board.has_piece());
    assert!(board.spawn(Block::new(Block::O), 1).is_ok());
    assert!(board.has_piece());
    let before = rows_of(&board);
    assert_eq!(board.try_down(), Ok(()));
    assert_eq!(rows_of(&board), before);
    assert_eq!(board.down(), Ok(()));
    assert_eq!(board.try_down(), Err(InvalidPlacement));
    assert_eq!(board.down(), Err(InvalidPlacement));
    assert_eq!(
        rows_of(&board),
        rows(&[&[0, 0, 0, 0], &[0, 0, 1, 1], &[0, 0, 1, 1]])
    );
}

#[test]
fn clear_on_a_board_without_columns_counts_every_row() {
    let mut board = Board::<i32>::new(0, 3);
    assert_eq!(board.clear_filled_rows(), 3);
    assert_eq!(board.height(), 3);
    assert_eq!(board.width(), 0);
}

#[test]
fn clear_takes_full_rows_from_anywhere() {
    let mut board = board_from(&[
        &[1, 1],
        &[0, 2],
        &[3, 3],
        &[4, 0],
        &[5, 5],
    ]);
    assert_eq!(board.clear_filled_rows(), 3);
    assert_eq!(
        rows_of(&board),
        rows(&[&[0, 0], &[0, 0], &[0, 0], &[0, 2], &[4, 0]])
    );
}
