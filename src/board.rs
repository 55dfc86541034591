use vstd::prelude::*;

verus! {

/// Identifier of a contestant: 1 or 2. The value 0 marks an empty cell.
pub type PlayerID = u8;

/// A 3x3 grid of cells in row-major order (index = row * 3 + column).
/// A cell holds 0 when empty, or the identifier of the contestant on it.
#[derive(Clone, Copy, Debug)]
pub struct Board(pub [PlayerID; 9]);

impl View for Board {
    type V = Seq<PlayerID>;

    open spec fn view(&self) -> Seq<PlayerID> {
        self.0@
    }
}

/// Outcome of a position as seen after a given contestant's move.
#[derive(Clone, Copy, Debug, PartialEq, Eq, Structural)]
pub enum GameStatus {
    Won(PlayerID),
    Draw,
    InProgress,
}

/// The one recoverable failure of `Board::play`: the chosen cell already
/// holds a contestant, named by `occupant`.
#[derive(Clone, Copy, Debug, PartialEq, Eq, Structural)]
pub struct OccupiedCell {
    pub occupant: PlayerID,
}

pub open spec fn valid_id(id: PlayerID) -> bool {
    id == 1 || id == 2
}

/// The contestant other than `id`.
pub open spec fn spec_opponent(id: PlayerID) -> PlayerID {
    (3 - id) as PlayerID
}

/// The contestant who moves after `id`.
pub fn opponent(id: PlayerID) -> (r: PlayerID)
    requires
        valid_id(id),
    ensures
        r == spec_opponent(id),
        valid_id(r),
        r != id,
{
    3 - id
}

/// The indices of the empty cells among the first `n` cells, ascending.
pub open spec fn empty_prefix(s: Seq<PlayerID>, n: int) -> Seq<usize>
    decreases n,
{
    if n <= 0 {
        Seq::empty()
    } else if s[n - 1] == 0 {
        empty_prefix(s, n - 1).push((n - 1) as usize)
    } else {
        empty_prefix(s, n - 1)
    }
}

/// The indices of the empty cells of a board, ascending.
pub open spec fn empty_cells(s: Seq<PlayerID>) -> Seq<usize> {
    empty_prefix(s, 9)
}

/// The indices of the occupied cells among the first `n` cells, ascending.
pub open spec fn occupied_prefix(s: Seq<PlayerID>, n: int) -> Seq<usize>
    decreases n,
{
    if n <= 0 {
        Seq::empty()
    } else if s[n - 1] != 0 {
        occupied_prefix(s, n - 1).push((n - 1) as usize)
    } else {
        occupied_prefix(s, n - 1)
    }
}

/// The indices of the occupied cells of a board, ascending.
pub open spec fn occupied_cells(s: Seq<PlayerID>) -> Seq<usize> {
    occupied_prefix(s, 9)
}

pub open spec fn is_full(s: Seq<PlayerID>) -> bool {
    forall|i: int| 0 <= i < 9 ==> s[i] != 0
}

/// Contestant `id` holds the cell in `row` and `col`.
pub open spec fn holds(s: Seq<PlayerID>, id: PlayerID, row: int, col: int) -> bool {
    s[row * 3 + col] == id
}

pub open spec fn full_row(s: Seq<PlayerID>, id: PlayerID, row: int) -> bool {
    forall|col: int| 0 <= col < 3 ==> holds(s, id, row, col)
}

pub open spec fn full_column(s: Seq<PlayerID>, id: PlayerID, col: int) -> bool {
    forall|row: int| 0 <= row < 3 ==> holds(s, id, row, col)
}

/// `id` has completed a row, a column, or one of the two diagonals.
pub open spec fn spec_has_won(s: Seq<PlayerID>, id: PlayerID) -> bool {
    (exists|row: int| 0 <= row < 3 && #[trigger] full_row(s, id, row))
    || (exists|col: int| 0 <= col < 3 && #[trigger] full_column(s, id, col))
    || (forall|i: int| 0 <= i < 3 ==> #[trigger] holds(s, id, i, i))
    || (forall|i: int| 0 <= i < 3 ==> #[trigger] holds(s, id, 2 - i, i))
}

pub open spec fn spec_status(s: Seq<PlayerID>, id: PlayerID) -> GameStatus {
    if spec_has_won(s, id) {
        GameStatus::Won(id)
    } else if is_full(s) {
        GameStatus::Draw
    } else {
        GameStatus::InProgress
    }
}

/// Every listed index is in range, names an empty cell, and the list ascends.
pub proof fn lemma_empty_prefix(s: Seq<PlayerID>, n: int)
    requires
        0 <= n <= s.len() <= 9,
    ensures
        empty_prefix(s, n).len() <= n,
        forall|j: int|
            0 <= j < empty_prefix(s, n).len() ==> (#[trigger] empty_prefix(s, n)[j] as int) < n
                && s[empty_prefix(s, n)[j] as int] == 0,
        forall|j: int, k: int|
            0 <= j < k < empty_prefix(s, n).len() ==> empty_prefix(s, n)[j]
                < empty_prefix(s, n)[k],
        forall|i: int| 0 <= i < n && s[i] == 0 ==> empty_prefix(s, n).contains(i as usize),
    decreases n,
{
    if n > 0 {
        lemma_empty_prefix(s, n - 1);
        let p = empty_prefix(s, n - 1);
        assert forall|j: int, k: int|
            0 <= j < k < empty_prefix(s, n).len() implies empty_prefix(s, n)[j]
                < empty_prefix(s, n)[k] by {
            if k == p.len() {
                assert(p[j] < n - 1);
            }
        }
        assert forall|i: int| 0 <= i < n && s[i] == 0 implies empty_prefix(s, n).contains(
            i as usize,
        ) by {
            if i < n - 1 {
                let j = choose|j: int| 0 <= j < p.len() && p[j] == i as usize;
                if s[n - 1] == 0 {
                    assert(empty_prefix(s, n)[j] == i as usize);
                }
            } else {
                assert(empty_prefix(s, n)[p.len() as int] == i as usize);
            }
        }
    }
}

/// The prefix count of empty cells falls by one when an empty cell below `n`
/// is taken, and is unchanged elsewhere.
proof fn lemma_empty_prefix_update(s: Seq<PlayerID>, n: int, pos: int, v: PlayerID)
    requires
        0 <= n <= s.len(),
        0 <= pos < s.len(),
        s[pos] == 0,
        v != 0,
    ensures
        empty_prefix(s.update(pos, v), n).len() == if pos < n {
            empty_prefix(s, n).len() - 1
        } else {
            empty_prefix(s, n).len() as int
        },
    decreases n,
{
    if n > 0 {
        lemma_empty_prefix_update(s, n - 1, pos, v);
    }
}

proof fn lemma_prefix_counts(s: Seq<PlayerID>, n: int)
    requires
        0 <= n <= s.len(),
    ensures
        empty_prefix(s, n).len() + occupied_prefix(s, n).len() == n,
    decreases n,
{
    if n > 0 {
        lemma_prefix_counts(s, n - 1);
    }
}

/// Every cell is either empty or occupied: the empty cells number nine less
/// the occupied ones.
pub proof fn lemma_empty_count(s: Seq<PlayerID>)
    requires
        s.len() == 9,
    ensures
        empty_cells(s).len() == 9 - occupied_cells(s).len(),
{
    lemma_prefix_counts(s, 9);
}

/// Taking an empty cell removes exactly one index from the empty cells.
pub proof fn lemma_play_removes_one(s: Seq<PlayerID>, pos: int, v: PlayerID)
    requires
        s.len() == 9,
        0 <= pos < 9,
        s[pos] == 0,
        v != 0,
    ensures
        empty_cells(s.update(pos, v)).len() == empty_cells(s).len() - 1,
{
    lemma_empty_prefix_update(s, 9, pos, v);
}

/// A board is full exactly when it has no empty cell.
pub proof fn lemma_full_iff_no_empty(s: Seq<PlayerID>)
    requires
        s.len() == 9,
    ensures
        is_full(s) <==> empty_cells(s).len() == 0,
{
    lemma_empty_prefix(s, 9);
    if !is_full(s) {
        let i = choose|i: int| 0 <= i < 9 && s[i] == 0;
        assert(empty_cells(s).contains(i as usize));
    }
    if empty_cells(s).len() > 0 {
        assert(s[empty_cells(s)[0] as int] == 0);
    }
}

/// The eight winning lines, as the three cells of each, spelled out.
pub open spec fn some_line_held(s: Seq<PlayerID>, id: PlayerID) -> bool {
    (s[0] == id && s[1] == id && s[2] == id)
    || (s[3] == id && s[4] == id && s[5] == id)
    || (s[6] == id && s[7] == id && s[8] == id)
    || (s[0] == id && s[3] == id && s[6] == id)
    || (s[1] == id && s[4] == id && s[7] == id)
    || (s[2] == id && s[5] == id && s[8] == id)
    || (s[0] == id && s[4] == id && s[8] == id)
    || (s[2] == id && s[4] == id && s[6] == id)
}

proof fn lemma_row(s: Seq<PlayerID>, id: PlayerID, row: int)
    requires
        0 <= row < 3,
    ensures
        full_row(s, id, row) <==> (s[row * 3] == id && s[row * 3 + 1] == id && s[row * 3 + 2]
            == id),
{
    if holds(s, id, row, 0) && holds(s, id, row, 1) && holds(s, id, row, 2) {
        assert forall|col: int| 0 <= col < 3 implies #[trigger] holds(s, id, row, col) by {
            assert(col == 0 || col == 1 || col == 2);
        }
    }
}

proof fn lemma_column(s: Seq<PlayerID>, id: PlayerID, col: int)
    requires
        0 <= col < 3,
    ensures
        full_column(s, id, col) <==> (s[col] == id && s[3 + col] == id && s[6 + col] == id),
{
    if holds(s, id, 0, col) && holds(s, id, 1, col) && holds(s, id, 2, col) {
        assert forall|row: int| 0 <= row < 3 implies #[trigger] holds(s, id, row, col) by {
            assert(row == 0 || row == 1 || row == 2);
        }
    }
}

/// The row, column and diagonal description of a win is the same as the list
/// of the eight lines.
pub proof fn lemma_won_by_lines(s: Seq<PlayerID>, id: PlayerID)
    ensures
        spec_has_won(s, id) <==> some_line_held(s, id),
{
    lemma_row(s, id, 0);
    lemma_row(s, id, 1);
    lemma_row(s, id, 2);
    lemma_column(s, id, 0);
    lemma_column(s, id, 1);
    lemma_column(s, id, 2);
    if holds(s, id, 0, 0) && holds(s, id, 1, 1) && holds(s, id, 2, 2) {
        assert forall|i: int| 0 <= i < 3 implies #[trigger] holds(s, id, i, i) by {
            assert(i == 0 || i == 1 || i == 2);
        }
    }
    if holds(s, id, 2, 0) && holds(s, id, 1, 1) && holds(s, id, 0, 2) {
        assert forall|i: int| 0 <= i < 3 implies #[trigger] holds(s, id, 2 - i, i) by {
            assert(i == 0 || i == 1 || i == 2);
        }
    }
    if (forall|i: int| 0 <= i < 3 ==> #[trigger] holds(s, id, i, i)) {
        assert(holds(s, id, 0, 0) && holds(s, id, 1, 1) && holds(s, id, 2, 2));
    }
    if (forall|i: int| 0 <= i < 3 ==> #[trigger] holds(s, id, 2 - i, i)) {
        assert(holds(s, id, 2 - 0, 0) && holds(s, id, 2 - 1, 1) && holds(s, id, 2 - 2, 2));
    }
    if exists|row: int| 0 <= row < 3 && #[trigger] full_row(s, id, row) {
        let row = choose|row: int| 0 <= row < 3 && #[trigger] full_row(s, id, row);
        assert(row == 0 || row == 1 || row == 2);
    }
    if exists|col: int| 0 <= col < 3 && #[trigger] full_column(s, id, col) {
        let col = choose|col: int| 0 <= col < 3 && #[trigger] full_column(s, id, col);
        assert(col == 0 || col == 1 || col == 2);
    }
    if s[0] == id && s[1] == id && s[2] == id {
        assert(full_row(s, id, 0));
    }
    if s[3] == id && s[4] == id && s[5] == id {
        assert(full_row(s, id, 1));
    }
    if s[6] == id && s[7] == id && s[8] == id {
        assert(full_row(s, id, 2));
    }
    if s[0] == id && s[3] == id && s[6] == id {
        assert(full_column(s, id, 0));
    }
    if s[1] == id && s[4] == id && s[7] == id {
        assert(full_column(s, id, 1));
    }
    if s[2] == id && s[5] == id && s[8] == id {
        assert(full_column(s, id, 2));
    }
}

/// Cell `n` (0, 1 or 2) of winning line `k`: lines 0 to 2 are the rows,
/// 3 to 5 the columns, 6 the diagonal from the top left, 7 the one from the
/// top right.
pub open spec fn line_cell(k: int, n: int) -> int {
    if k < 3 {
        3 * k + n
    } else if k < 6 {
        (k - 3) + 3 * n
    } else if k == 6 {
        4 * n
    } else {
        2 + 2 * n
    }
}

pub open spec fn line_held(s: Seq<PlayerID>, id: PlayerID, k: int) -> bool {
    forall|n: int| 0 <= n < 3 ==> s[#[trigger] line_cell(k, n)] == id
}

/// Lines `k` and `j` share a cell.
pub open spec fn lines_meet(k: int, j: int) -> bool {
    exists|a: int, b: int| 0 <= a < 3 && 0 <= b < 3 && line_cell(k, a) == line_cell(j, b)
}

proof fn lemma_line_held(s: Seq<PlayerID>, id: PlayerID, k: int)
    requires
        0 <= k < 8,
    ensures
        line_held(s, id, k) <==> (s[line_cell(k, 0)] == id && s[line_cell(k, 1)] == id
            && s[line_cell(k, 2)] == id),
{
    if s[line_cell(k, 0)] == id && s[line_cell(k, 1)] == id && s[line_cell(k, 2)] == id {
        assert forall|n: int| 0 <= n < 3 implies s[#[trigger] line_cell(k, n)] == id by {
            assert(n == 0 || n == 1 || n == 2);
        }
    }
}

/// A contestant has won exactly when it holds one of the eight lines.
pub proof fn lemma_won_iff_line_held(s: Seq<PlayerID>, id: PlayerID)
    ensures
        spec_has_won(s, id) <==> exists|k: int| 0 <= k < 8 && #[trigger] line_held(s, id, k),
{
    lemma_won_by_lines(s, id);
    lemma_line_held(s, id, 0);
    lemma_line_held(s, id, 1);
    lemma_line_held(s, id, 2);
    lemma_line_held(s, id, 3);
    lemma_line_held(s, id, 4);
    lemma_line_held(s, id, 5);
    lemma_line_held(s, id, 6);
    lemma_line_held(s, id, 7);
    if some_line_held(s, id) {
        if s[0] == id && s[1] == id && s[2] == id {
            assert(line_held(s, id, 0));
        } else if s[3] == id && s[4] == id && s[5] == id {
            assert(line_held(s, id, 1));
        } else if s[6] == id && s[7] == id && s[8] == id {
            assert(line_held(s, id, 2));
        } else if s[0] == id && s[3] == id && s[6] == id {
            assert(line_held(s, id, 3));
        } else if s[1] == id && s[4] == id && s[7] == id {
            assert(line_held(s, id, 4));
        } else if s[2] == id && s[5] == id && s[8] == id {
            assert(line_held(s, id, 5));
        } else if s[0] == id && s[4] == id && s[8] == id {
            assert(line_held(s, id, 6));
        } else {
            assert(line_held(s, id, 7));
        }
    }
    if exists|k: int| 0 <= k < 8 && #[trigger] line_held(s, id, k) {
        let k = choose|k: int| 0 <= k < 8 && #[trigger] line_held(s, id, k);
        assert(k == 0 || k == 1 || k == 2 || k == 3 || k == 4 || k == 5 || k == 6 || k == 7);
    }
}

/// A contestant placed on all three cells of any of the eight lines has won;
/// its opponent can then have won only with a line that shares no cell with
/// that one.
pub proof fn lemma_line_wins(s: Seq<PlayerID>, id: PlayerID, k: int)
    requires
        valid_id(id),
        0 <= k < 8,
        line_held(s, id, k),
    ensures
        spec_has_won(s, id),
        spec_has_won(s, spec_opponent(id)) ==> exists|j: int|
            0 <= j < 8 && !lines_meet(k, j) && #[trigger] line_held(s, spec_opponent(id), j),
{
    lemma_won_iff_line_held(s, id);
    lemma_won_iff_line_held(s, spec_opponent(id));
    if spec_has_won(s, spec_opponent(id)) {
        let j = choose|j: int| 0 <= j < 8 && #[trigger] line_held(s, spec_opponent(id), j);
        if lines_meet(k, j) {
            let (a, b) = choose|a: int, b: int|
                0 <= a < 3 && 0 <= b < 3 && line_cell(k, a) == line_cell(j, b);
            assert(s[line_cell(k, a)] == id);
            assert(s[line_cell(j, b)] == spec_opponent(id));
        }
    }
}

/// The contestant making move `k` (counted from 0) when `first` moves first.
pub open spec fn mover(first: PlayerID, k: int) -> PlayerID {
    if k % 2 == 0 {
        first
    } else {
        spec_opponent(first)
    }
}

/// The cells of a new board.
pub open spec fn empty_board() -> Seq<PlayerID> {
    Seq::new(9, |i: int| 0u8)
}

/// The board after the given moves, made in turn from a new board with
/// `first` moving first.
pub open spec fn after_moves(first: PlayerID, moves: Seq<usize>) -> Seq<PlayerID>
    decreases moves.len(),
{
    if moves.len() == 0 {
        empty_board()
    } else {
        after_moves(first, moves.drop_last()).update(
            moves.last() as int,
            mover(first, moves.len() - 1),
        )
    }
}

/// Each move takes an empty cell of the board it is made on.
pub open spec fn legal_sequence(first: PlayerID, moves: Seq<usize>) -> bool {
    forall|k: int|
        0 <= k < moves.len() ==> #[trigger] moves[k] < 9 && after_moves(first, moves.take(k))[moves[k]
            as int] == 0
}

proof fn lemma_empty_board_prefix(n: int)
    requires
        0 <= n <= 9,
    ensures
        empty_prefix(empty_board(), n).len() == n,
    decreases n,
{
    if n > 0 {
        lemma_empty_board_prefix(n - 1);
    }
}

proof fn lemma_after_moves_count(first: PlayerID, moves: Seq<usize>, n: int)
    requires
        valid_id(first),
        legal_sequence(first, moves),
        0 <= n <= moves.len(),
        moves.len() <= 9,
    ensures
        after_moves(first, moves.take(n)).len() == 9,
        empty_cells(after_moves(first, moves.take(n))).len() == 9 - n,
    decreases n,
{
    if n == 0 {
        lemma_empty_board_prefix(9);
        assert(moves.take(0) =~= Seq::<usize>::empty());
    } else {
        lemma_after_moves_count(first, moves, n - 1);
        assert(moves.take(n).drop_last() =~= moves.take(n - 1));
        let k = n - 1;
        assert(moves[k] < 9 && after_moves(first, moves.take(k))[moves[k] as int] == 0);
        lemma_play_removes_one(after_moves(first, moves.take(k)), moves[k] as int, mover(first, k));
    }
}

/// Counts the cells of one line that `id` holds and tells whether all three do.
fn count_line(board: &Board, id: PlayerID, a: usize, b: usize, c: usize) -> (r: bool)
    requires
        a < 9,
        b < 9,
        c < 9,
    ensures
        r == (board@[a as int] == id && board@[b as int] == id && board@[c as int] == id),
{
    let mut sum: u8 = 0;
    if board.0[a] == id {
        sum = sum + 1;
    }
    if board.0[b] == id {
        sum = sum + 1;
    }
    if board.0[c] == id {
        sum = sum + 1;
    }
    sum == 3
}

/// Whether `id` holds all three cells of some row, column or diagonal.
pub fn has_won(board: &Board, id: PlayerID) -> (r: bool)
    ensures
        r == spec_has_won(board@, id),
{
    proof {
        lemma_won_by_lines(board@, id);
    }
    count_line(board, id, 0, 1, 2) || count_line(board, id, 3, 4, 5) || count_line(board, id, 6, 7, 8)
        || count_line(board, id, 0, 3, 6) || count_line(board, id, 1, 4, 7) || count_line(
        board,
        id,
        2,
        5,
        8,
    ) || count_line(board, id, 0, 4, 8) || count_line(board, id, 2, 4, 6)
}

/// Won when `id` has completed a line; else Draw when no cell is empty; else
/// InProgress. Only the named contestant's lines are looked at.
pub fn check_win_condition(board: &Board, id: PlayerID) -> (r: GameStatus)
    ensures
        r == spec_status(board@, id),
{
    if has_won(board, id) {
        GameStatus::Won(id)
    } else if board.none_empty() {
        GameStatus::Draw
    } else {
        GameStatus::InProgress
    }
}

/// A source of moves: a contestant with its identifier and the way it picks
/// a cell on a given board.
pub trait Player {
    spec fn spec_id(&self) -> PlayerID;

    /// The condition under which the contestant can pick a cell on `cells`.
    spec fn can_pick(&self, cells: Seq<PlayerID>) -> bool;

    /// The cell the contestant picks on `cells`.
    spec fn pick(&self, cells: Seq<PlayerID>) -> int;

    fn id(&self) -> (r: PlayerID)
        ensures
            r == self.spec_id(),
    ;

    fn play(&self, board: &Board) -> (r: usize)
        requires
            self.can_pick(board@),
        ensures
            r as int == self.pick(board@),
            r < 9,
    ;
}

/// A contestant that always picks the same cell.
pub struct Dummy {
    pub id: PlayerID,
    pub play: usize,
}

impl Player for Dummy {
    open spec fn spec_id(&self) -> PlayerID {
        self.id
    }

    open spec fn can_pick(&self, cells: Seq<PlayerID>) -> bool {
        self.play < 9
    }

    open spec fn pick(&self, cells: Seq<PlayerID>) -> int {
        self.play as int
    }

    fn id(&self) -> (r: PlayerID) {
        self.id
    }

    fn play(&self, _board: &Board) -> (r: usize) {
        self.play
    }
}

/// Moves made in turn on empty cells, none of which completes a line for
/// the contestant making it: after each move before the ninth the status is
/// InProgress; after the ninth, which fills the board, it is Draw. It is
/// never Won.
pub proof fn lemma_draw_when_filled(first: PlayerID, moves: Seq<usize>)
    requires
        valid_id(first),
        moves.len() <= 9,
        legal_sequence(first, moves),
        forall|k: int|
            0 <= k < moves.len() ==> !spec_has_won(
                #[trigger] after_moves(first, moves.take(k + 1)),
                mover(first, k),
            ),
    ensures
        forall|k: int|
            1 <= k <= moves.len() ==> spec_status(
                #[trigger] after_moves(first, moves.take(k)),
                mover(first, k - 1),
            ) == if k == 9 {
                GameStatus::Draw
            } else {
                GameStatus::InProgress
            },
{
    assert forall|k: int| 1 <= k <= moves.len() implies spec_status(
        #[trigger] after_moves(first, moves.take(k)),
        mover(first, k - 1),
    ) == if k == 9 {
        GameStatus::Draw
    } else {
        GameStatus::InProgress
    } by {
        lemma_after_moves_count(first, moves, k);
        lemma_full_iff_no_empty(after_moves(first, moves.take(k)));
        assert(!spec_has_won(after_moves(first, moves.take((k - 1) + 1)), mover(first, k - 1)));
    }
}

impl Board {
    pub fn new() -> (r: Board)
        ensures
            forall|i: int| 0 <= i < 9 ==> r@[i] == 0,
    {
        Board([0; 9])
    }

    pub fn len(&self) -> (r: usize)
        ensures
            r == 9,
            r == self@.len(),
    {
        9
    }

    /// The value of cell `index`: 0 when empty, else its contestant.
    pub fn occupant(&self, index: usize) -> (r: PlayerID)
        requires
            index < 9,
        ensures
            r == self@[index as int],
    {
        self.0[index]
    }

    /// Lets `player` pick a cell and puts it there when the cell is empty;
    /// otherwise fails with the cell's occupant and leaves the board as it was.
    pub fn play<P: Player>(&mut self, player: &P) -> (r: Result<(), OccupiedCell>)
        requires
            player.can_pick(old(self)@),
            valid_id(player.spec_id()),
        ensures
            ({
                let pos = player.pick(old(self)@);
                &&& old(self)@[pos] == 0 ==> r is Ok && final(self)@ == old(self)@.update(
                    pos,
                    player.spec_id(),
                )
                &&& old(self)@[pos] != 0 ==> r == Err::<(), OccupiedCell>(
                    OccupiedCell { occupant: old(self)@[pos] },
                ) && final(self)@ == old(self)@
            }),
    {
        let pos = player.play(self);
        let id = player.id();
        if self.0[pos] == 0 {
            self.0[pos] = id;
            Ok(())
        } else {
            Err(OccupiedCell { occupant: self.0[pos] })
        }
    }

    /// Whether no cell is empty.
    pub fn none_empty(&self) -> (r: bool)
        ensures
            r == is_full(self@),
    {
        let mut i: usize = 0;
        while i < 9
            invariant
                i <= 9,
                forall|j: int| 0 <= j < i ==> self@[j] != 0,
            decreases 9 - i,
        {
            if self.0[i] == 0 {
                return false;
            }
            i = i + 1;
        }
        true
    }

    /// The indices of the empty cells, ascending.
    pub fn available_moves(&self) -> (r: Vec<usize>)
        ensures
            r@ == empty_cells(self@),
    {
        let mut r: Vec<usize> = Vec::new();
        let mut i: usize = 0;
        while i < 9
            invariant
                i <= 9,
                r@ == empty_prefix(self@, i as int),
            decreases 9 - i,
        {
            if self.0[i] == 0 {
                r.push(i);
            }
            i = i + 1;
        }
        r
    }
}

} // verus!
