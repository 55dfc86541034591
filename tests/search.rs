use tictactoe::board::{Board, Player, has_won};
use tictactoe::search::{Computer, best_move, best_moves, min_max};

fn computer_play(b: &Board, id: u8) -> usize {
    Computer(id).play(b)
}

#[test]
fn test_best_moves_search() {
    // Should return the last option if there is only one
    let b = Board([1, 2, 1, 2, 0, 2, 1, 2, 1]);
    let (val, vec) = best_moves(&b, 1, 0);
    assert_eq!(val, 100);
    assert_eq!(vec.len(), 1);
    assert_eq!(vec[0].0, 4);

    // Should return all the possibilities if there are several
    let b = Board([1, 1, 0, 1, 1, 0, 0, 1, 0]);
    let (val, mut vec) = best_moves(&b, 1, 0);
    vec.sort();
    assert_eq!(val, 100);
    assert_eq!(vec.len(), 4);
    for (left, right) in vec.iter().zip([2, 5, 6, 8].iter()) {
        assert_eq!(left.0, *right);
    }

    // Should return an option for a victory in 2 moves if possible
    let b = Board([1, 0, 0, 2, 1, 0, 0, 0, 2]);
    let (val, mut vec) = best_moves(&b, 1, 0);
    vec.sort();
    assert_eq!(val, 100);
    assert_eq!(vec.len(), 2);
    assert_eq!(vec[0].0, 1);
    assert_eq!(vec[1].0, 2);
}

#[test]
fn ai_should_never_lose() {
    let b = Board([1, 2, 2, 2, 1, 0, 1, 1, 0]);
    assert_eq!(computer_play(&b, 2), 8);

    let b = Board([1, 0, 0, 0, 0, 2, 0, 0, 2]);
    assert_eq!(computer_play(&b, 1), 2);

    let b = Board([1, 2, 0, 1, 0, 2, 0, 0, 0]);
    assert_eq!(computer_play(&b, 2), 6);
}

#[test]
fn ai_should_win_immediately_given_the_opportunity() {
    let mut b = Board([1, 1, 0, 2, 0, 0, 2, 0, 0]);
    match b.play(&Computer(1)) {
        Err(e) => assert!(false, "play returned an error: {}", e.occupant),
        _ => (),
    }
    assert!(has_won(&b, 1));

    let mut b = Board([1, 1, 0, 2, 1, 0, 2, 0, 0]);
    match b.play(&Computer(1)) {
        Err(e) => assert!(false, "play returned an error: {}", e.occupant),
        _ => (),
    }
    assert!(has_won(&b, 1));

    let mut b = Board([0, 0, 0, 2, 0, 1, 2, 0, 1]);
    match b.play(&Computer(1)) {
        Err(e) => assert!(false, "play returned an error: {}", e.occupant),
        _ => (),
    }
    assert!(has_won(&b, 1));
}

#[test]
fn completes_the_top_row() {
    let b = Board([1, 1, 0, 2, 0, 0, 2, 0, 0]);
    assert_eq!(best_move(&b, 1), 2);
    let (val, vec) = best_moves(&b, 1, 0);
    assert_eq!(val, 100);
    assert!(vec.contains(&(2, 1)));
    assert_eq!(min_max(&b, 1, 2, 1), (100, 1));
}

#[test]
fn single_winning_cell_is_taken_at_depth_one() {
    let b = Board([2, 0, 1, 0, 2, 1, 0, 0, 0]);
    let (val, vec) = best_moves(&b, 1, 0);
    assert_eq!(val, 100);
    assert_eq!(best_move(&b, 1), 8);
    assert!(vec.contains(&(8, 1)));
}

#[test]
fn forced_loss_still_yields_a_legal_move() {
    let b = Board([2, 2, 0, 1, 2, 0, 1, 0, 0]);
    let (val, vec) = best_moves(&b, 1, 0);
    assert_eq!(val, -100);
    assert_eq!(vec.len(), 4);
    let m = best_move(&b, 1);
    assert!(m < 9);
    assert_eq!(b.0[m], 0);
}

#[test]
fn empty_board_is_a_draw() {
    let (val, vec) = best_moves(&Board::new(), 1, 0);
    assert_eq!(val, 0);
    assert!(vec.len() > 1);
    assert_eq!(vec.len(), 9);
}

#[test]
fn last_cell_drawing_and_losing_values() {
    // the last cell fills the board without a line
    let b = Board([1, 2, 1, 1, 2, 2, 2, 1, 0]);
    assert_eq!(min_max(&b, 1, 8, 3), (0, 3));
    // the opponent then completes a column
    let b = Board([2, 1, 0, 2, 1, 0, 0, 0, 0]);
    assert_eq!(min_max(&b, 1, 2, 0).0, -100);
    assert_eq!(min_max(&b, 1, 2, 0).1, 1);
}

#[test]
fn the_board_searched_is_left_untouched() {
    let b = Board([1, 0, 0, 2, 1, 0, 0, 0, 2]);
    let _ = best_moves(&b, 1, 0);
    assert_eq!(b.0, [1, 0, 0, 2, 1, 0, 0, 0, 2]);
}
