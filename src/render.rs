use vstd::prelude::*;

verus! {

/// The character shown for a cell: a blank for an empty cell, otherwise the
/// character given for the contestant.
pub fn get_player_representation(player: u8, characters: &(char, char)) -> (r: char)
    requires
        player <= 2,
    ensures
        player == 0 ==> r == ' ',
        player == 1 ==> r == characters.0,
        player == 2 ==> r == characters.1,
{
    if player == 0 {
        ' '
    } else if player == 1 {
        characters.0
    } else {
        characters.1
    }
}

/// The cell named by the numbers a person typed: one number from 1 to 9
/// (the cell's position counted from 1), or two numbers from 1 to 3 (row and
/// column, counted from 1). Anything else names no cell.
pub open spec fn spec_cell_from_numbers(n: Seq<usize>) -> Option<usize> {
    if n.len() == 1 && 1 <= n[0] <= 9 {
        Some((n[0] - 1) as usize)
    } else if n.len() == 2 && 1 <= n[0] <= 3 && 1 <= n[1] <= 3 {
        Some(((n[0] - 1) * 3 + n[1] - 1) as usize)
    } else {
        None
    }
}

pub fn cell_from_numbers(numbers: &Vec<usize>) -> (r: Option<usize>)
    ensures
        r == spec_cell_from_numbers(numbers@),
        r matches Some(c) ==> c < 9,
{
    if numbers.len() == 1 && 1 <= numbers[0] && numbers[0] <= 9 {
        Some(numbers[0] - 1)
    } else if numbers.len() == 2 && 1 <= numbers[0] && numbers[0] <= 3 && 1 <= numbers[1]
        && numbers[1] <= 3 {
        Some((numbers[0] - 1) * 3 + numbers[1] - 1)
    } else {
        None
    }
}

} // verus!
