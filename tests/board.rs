use tictactoe::board::{Board, Dummy, GameStatus, OccupiedCell, check_win_condition, has_won, opponent};

#[test]
fn test_available_moves() {
    let b = Board([1, 0, 1, 1, 0, 2, 2, 0, 0]);
    assert_eq!(b.available_moves().len(), 4);
}

#[test]
fn test_can_place_on_empty_spot() {
    let mut b = Board::new();

    for i in 0..9u8 {
        let p = Dummy { id: i % 2 + 1, play: i as usize };
        match b.play(&p) {
            Err(e) => panic!("Position already occupied by player {}", e.occupant),
            _ => (),
        }
    }

    match b {
        Board(content) => assert_eq!(content, [1, 2, 1, 2, 1, 2, 1, 2, 1]),
    }
}

#[test]
fn test_cannot_place_on_taken_spot() {
    let mut b = Board([1, 1, 1, 2, 1, 1, 2, 1, 1]);

    for i in 0..9 {
        let p = Dummy { id: 1, play: i };
        match b.play(&p) {
            Ok(()) => assert!(false, "Should have failed"),
            _ => (),
        }
    }
}

#[test]
fn test_none_empty() {
    assert!(!Board([0, 1, 1, 1, 0, 1, 0, 0, 0]).none_empty());
    assert!(Board([1, 1, 1, 1, 1, 1, 1, 1, 1]).none_empty());
}

#[test]
fn test_win_condition() {
    for i in 1..3 {
        let bi = Board([i, i, i, 0, 0, 0, 0, 0, 0]);
        assert!(has_won(&bi, i));
        let bi = Board([0, 0, 0, i, i, i, 0, 0, 0]);
        assert!(has_won(&bi, i));
        let bi = Board([0, 0, 0, 0, 0, 0, i, i, i]);
        assert!(has_won(&bi, i));

        let bi = Board([i, 0, 0, i, 0, 0, i, 0, 0]);
        assert!(has_won(&bi, i));
        let bi = Board([0, i, 0, 0, i, 0, 0, i, 0]);
        assert!(has_won(&bi, i));
        let bi = Board([0, 0, i, 0, 0, i, 0, 0, i]);
        assert!(has_won(&bi, i));

        let bi = Board([0, 0, i, 0, i, 0, i, 0, 0]);
        assert!(has_won(&bi, i));
        let bi = Board([i, 0, 0, 0, i, 0, 0, 0, i]);
        assert!(has_won(&bi, i));
    }

    for i in 1..3 {
        let bi = Board([0, i, 0, 0, i, 0, 0, 0, i]);
        assert!(!has_won(&bi, i));
        let bi = Board([0, i, 0, 0, i, 0, i, 0, 0]);
        assert!(!has_won(&bi, i));
        let bi = Board([0, i, 0, 0, i, 0, i, 0, i]);
        assert!(!has_won(&bi, i));
    }
}

const LINES: [[usize; 3]; 8] = [
    [0, 1, 2],
    [3, 4, 5],
    [6, 7, 8],
    [0, 3, 6],
    [1, 4, 7],
    [2, 5, 8],
    [0, 4, 8],
    [2, 4, 6],
];

#[test]
fn every_line_wins_for_its_holder_only() {
    for id in 1..3u8 {
        let other = 3 - id;
        for line in LINES.iter() {
            let mut cells = [0u8; 9];
            for &c in line.iter() {
                cells[c] = id;
            }
            let b = Board(cells);
            assert!(has_won(&b, id));
            assert!(!has_won(&b, other));
            assert_eq!(check_win_condition(&b, id), GameStatus::Won(id));
        }
    }
    // the other cells held by the opponent, where the opponent has no line
    let b = Board([1, 2, 1, 2, 1, 2, 2, 1, 1]);
    assert!(has_won(&b, 1));
    assert!(!has_won(&b, 2));
}

#[test]
fn draw_only_when_the_board_fills() {
    let order: [usize; 9] = [0, 1, 2, 4, 3, 5, 7, 6, 8];
    let mut b = Board::new();
    let mut id: u8 = 1;
    for (k, &cell) in order.iter().enumerate() {
        assert!(b.play(&Dummy { id, play: cell }).is_ok());
        let status = check_win_condition(&b, id);
        if k == 8 {
            assert_eq!(status, GameStatus::Draw);
        } else {
            assert_eq!(status, GameStatus::InProgress);
        }
        id = 3 - id;
    }
    assert_eq!(b.0, [1, 2, 1, 1, 2, 2, 2, 1, 1]);
}

#[test]
fn occupied_cell_is_reported_and_board_kept() {
    let mut b = Board([0, 2, 0, 0, 1, 0, 0, 0, 0]);
    assert_eq!(b.play(&Dummy { id: 1, play: 1 }), Err(OccupiedCell { occupant: 2 }));
    assert_eq!(b.0, [0, 2, 0, 0, 1, 0, 0, 0, 0]);
    assert_eq!(b.play(&Dummy { id: 2, play: 4 }), Err(OccupiedCell { occupant: 1 }));
    assert_eq!(b.0, [0, 2, 0, 0, 1, 0, 0, 0, 0]);
}

#[test]
fn empty_cells_fall_by_one_per_move() {
    let mut b = Board::new();
    assert_eq!(b.available_moves(), vec![0, 1, 2, 3, 4, 5, 6, 7, 8]);
    let mut id: u8 = 1;
    for (k, cell) in [4usize, 0, 8, 2, 6].iter().enumerate() {
        let before = b.available_moves().len();
        assert!(b.play(&Dummy { id, play: *cell }).is_ok());
        assert_eq!(b.available_moves().len(), before - 1);
        assert_eq!(b.available_moves().len(), 9 - (k + 1));
        id = 3 - id;
    }
    assert_eq!(b.available_moves(), vec![1, 3, 5, 7]);
}

#[test]
fn status_and_accessors() {
    let b = Board([1, 2, 0, 0, 0, 0, 0, 0, 0]);
    assert_eq!(check_win_condition(&b, 1), GameStatus::InProgress);
    assert_eq!(b.len(), 9);
    assert_eq!(b.occupant(0), 1);
    assert_eq!(b.occupant(1), 2);
    assert_eq!(b.occupant(2), 0);
    // a full board with a line for the named contestant is a win, not a draw
    let full = Board([1, 1, 1, 2, 2, 1, 2, 1, 2]);
    assert_eq!(check_win_condition(&full, 1), GameStatus::Won(1));
    assert_eq!(check_win_condition(&full, 2), GameStatus::Draw);
    assert_eq!(Board::new().0, [0; 9]);
    assert_eq!(opponent(1), 2);
    assert_eq!(opponent(2), 1);
}
