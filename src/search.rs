use vstd::prelude::*;
use crate::board::{
    Board, Dummy, Player, PlayerID, empty_cells, has_won, is_full, opponent, spec_has_won, spec_opponent,
    valid_id, lemma_empty_prefix, lemma_full_iff_no_empty, lemma_play_removes_one,
};

verus! {

/// The value of a won position for the contestant who won it.
pub const WIN: i8 = 100;

/// The least depth among the candidates (0 when there is none).
pub open spec fn min_depth(c: Seq<(usize, u32)>) -> u32
    decreases c.len(),
{
    if c.len() == 0 {
        0
    } else if c.len() == 1 {
        c[0].1
    } else if c.last().1 < min_depth(c.drop_last()) {
        c.last().1
    } else {
        min_depth(c.drop_last())
    }
}

/// The position of the first candidate of least depth (0 when there is none).
pub open spec fn fastest(c: Seq<(usize, u32)>) -> int
    decreases c.len(),
{
    if c.len() <= 1 {
        0
    } else if c.last().1 < c[fastest(c.drop_last())].1 {
        c.len() - 1
    } else {
        fastest(c.drop_last())
    }
}

/// The guard under which `player` may take cell `pos` of `s`.
pub open spec fn legal(s: Seq<PlayerID>, player: PlayerID, pos: int) -> bool {
    s.len() == 9 && valid_id(player) && 0 <= pos < 9 && s[pos] == 0
}

/// The outcome of `player` taking `pos` at ply `depth`: +100 when it
/// completes a line, 0 when it fills the board, otherwise the negated best
/// value of the opponent's reply, with the least depth among the opponent's
/// best replies.
pub open spec fn spec_min_max(s: Seq<PlayerID>, player: PlayerID, pos: int, depth: u32) -> (
    int,
    u32,
)
    decreases empty_cells(s).len(), 0int, 0int,
    via spec_min_max_decreases
{
    if !legal(s, player, pos) {
        (0, depth)
    } else {
        let t = s.update(pos, player);
        if spec_has_won(t, player) {
            (WIN as int, depth)
        } else if is_full(t) {
            (0, depth)
        } else {
            let r = spec_best_upto(
                t,
                spec_opponent(player),
                depth,
                empty_cells(t).len() as int,
            );
            (-r.0, min_depth(r.1))
        }
    }
}

#[via_fn]
proof fn spec_min_max_decreases(s: Seq<PlayerID>, player: PlayerID, pos: int, depth: u32) {
    if legal(s, player, pos) {
        lemma_play_removes_one(s, pos, player);
    }
}

/// The best value over the first `k` empty cells of `s`, and the cells (with
/// their depths) that reach it, in ascending order. It starts at -100 with no
/// candidate; a strictly better value replaces the candidates, an equal one
/// joins them.
pub open spec fn spec_best_upto(s: Seq<PlayerID>, player: PlayerID, depth: u32, k: int) -> (
    int,
    Seq<(usize, u32)>,
)
    decreases empty_cells(s).len(), 1int, k,
{
    if k <= 0 {
        (-WIN as int, Seq::empty())
    } else {
        let prev = spec_best_upto(s, player, depth, k - 1);
        let m = empty_cells(s)[k - 1];
        let r = spec_min_max(s, player, m as int, (depth + 1) as u32);
        if r.0 > prev.0 {
            (r.0, seq![(m, r.1)])
        } else if r.0 == prev.0 {
            (prev.0, prev.1.push((m, r.1)))
        } else {
            prev
        }
    }
}

/// The best value for `player` on `s` and every empty cell that reaches it.
pub open spec fn spec_best_moves(s: Seq<PlayerID>, player: PlayerID, depth: u32) -> (
    int,
    Seq<(usize, u32)>,
) {
    spec_best_upto(s, player, depth, empty_cells(s).len() as int)
}

/// Among the best cells for `player`, the first one of least depth.
pub open spec fn spec_best_move(s: Seq<PlayerID>, player: PlayerID) -> usize {
    let c = spec_best_moves(s, player, 0).1;
    c[fastest(c)].0
}

pub open spec fn is_outcome(v: int) -> bool {
    v == WIN || v == 0 || v == -WIN
}

proof fn lemma_min_depth_bound(c: Seq<(usize, u32)>, b: int)
    requires
        c.len() > 0,
        forall|j: int| 0 <= j < c.len() ==> (#[trigger] c[j]).1 >= b,
    ensures
        min_depth(c) >= b,
    decreases c.len(),
{
    if c.len() > 1 {
        lemma_min_depth_bound(c.drop_last(), b);
    }
}

/// The first candidate of least depth is a candidate, and none is faster.
pub proof fn lemma_fastest(c: Seq<(usize, u32)>)
    requires
        c.len() > 0,
    ensures
        0 <= fastest(c) < c.len(),
        forall|j: int| 0 <= j < c.len() ==> c[fastest(c)].1 <= (#[trigger] c[j]).1,
    decreases c.len(),
{
    if c.len() > 1 {
        lemma_fastest(c.drop_last());
        assert forall|j: int| 0 <= j < c.len() implies c[fastest(c)].1 <= (#[trigger] c[j]).1 by {
            if j < c.len() - 1 {
                assert(c.drop_last()[j] == c[j]);
            }
        }
    }
}

/// The value of a legal move is a win, a draw or a loss; it is settled no
/// earlier than its own ply, and at its own ply only when the move ends the
/// game.
proof fn lemma_min_max_outcome(s: Seq<PlayerID>, player: PlayerID, pos: int, depth: u32)
    requires
        legal(s, player, pos),
        depth + empty_cells(s).len() <= u32::MAX + 1,
    ensures
        is_outcome(spec_min_max(s, player, pos, depth).0),
        spec_min_max(s, player, pos, depth).1 >= depth,
        spec_has_won(s.update(pos, player), player) ==> spec_min_max(s, player, pos, depth) == (
        WIN as int, depth),
        !spec_has_won(s.update(pos, player), player) && is_full(s.update(pos, player))
            ==> spec_min_max(s, player, pos, depth) == (0int, depth),
        spec_min_max(s, player, pos, depth).1 == depth ==> spec_has_won(s.update(pos, player), player)
            || is_full(s.update(pos, player)),
    decreases empty_cells(s).len(), 0int, 0int,
{
    let t = s.update(pos, player);
    if !spec_has_won(t, player) && !is_full(t) {
        lemma_play_removes_one(s, pos, player);
        lemma_full_iff_no_empty(t);
        let n = empty_cells(t).len() as int;
        lemma_best_upto(t, spec_opponent(player), depth, n);
        lemma_min_depth_bound(spec_best_upto(t, spec_opponent(player), depth, n).1, depth + 1);
    }
}

/// Over the first `k` empty cells: the best value is a win, a draw or a loss
/// and no scored cell beats it; each candidate is a cell that reaches it, with
/// its depth; every cell that reaches it is a candidate.
proof fn lemma_best_upto(s: Seq<PlayerID>, player: PlayerID, depth: u32, k: int)
    requires
        s.len() == 9,
        valid_id(player),
        0 <= k <= empty_cells(s).len(),
        depth + empty_cells(s).len() <= u32::MAX,
    ensures
        ({
            let r = spec_best_upto(s, player, depth, k);
            &&& is_outcome(r.0)
            &&& k > 0 ==> r.1.len() > 0
            &&& forall|j: int|
                0 <= j < r.1.len() ==> {
                    &&& (#[trigger] r.1[j]).1 >= depth + 1
                    &&& legal(s, player, r.1[j].0 as int)
                    &&& spec_min_max(s, player, r.1[j].0 as int, (depth + 1) as u32) == (
                        r.0,
                        r.1[j].1,
                    )
                }
            &&& forall|i: int|
                0 <= i < k ==> spec_min_max(
                    s,
                    player,
                    #[trigger] empty_cells(s)[i] as int,
                    (depth + 1) as u32,
                ).0 <= r.0
            &&& forall|i: int|
                0 <= i < k && spec_min_max(
                    s,
                    player,
                    #[trigger] empty_cells(s)[i] as int,
                    (depth + 1) as u32,
                ).0 == r.0 ==> r.1.contains(
                    (
                        empty_cells(s)[i],
                        spec_min_max(s, player, empty_cells(s)[i] as int, (depth + 1) as u32).1,
                    ),
                )
        }),
    decreases empty_cells(s).len(), 1int, k,
{
    if k > 0 {
        lemma_best_upto(s, player, depth, k - 1);
        lemma_empty_prefix(s, 9);
        let m = empty_cells(s)[k - 1];
        lemma_min_max_outcome(s, player, m as int, (depth + 1) as u32);
        let prev = spec_best_upto(s, player, depth, k - 1);
        let r = spec_best_upto(s, player, depth, k);
        let v = spec_min_max(s, player, m as int, (depth + 1) as u32);
        assert forall|i: int|
            0 <= i < k && spec_min_max(
                s,
                player,
                #[trigger] empty_cells(s)[i] as int,
                (depth + 1) as u32,
            ).0 == r.0 implies r.1.contains(
            (
                empty_cells(s)[i],
                spec_min_max(s, player, empty_cells(s)[i] as int, (depth + 1) as u32).1,
            ),
        ) by {
            if i == k - 1 {
                if v.0 > prev.0 {
                    assert(r.1[0] == (m, v.1));
                } else {
                    assert(r.1[prev.1.len() as int] == (m, v.1));
                }
            } else {
                let j = choose|j: int|
                    0 <= j < prev.1.len() && prev.1[j] == (
                        empty_cells(s)[i],
                        spec_min_max(s, player, empty_cells(s)[i] as int, (depth + 1) as u32).1,
                    );
                assert(r.1[j] == prev.1[j]);
            }
        }
    }
}

/// When `player` can complete a line with a single move, the search values
/// the position as a win, the move it chooses is settled at depth one and
/// completes a line; when only one cell completes a line, it chooses that cell.
pub proof fn lemma_takes_immediate_win(s: Seq<PlayerID>, player: PlayerID, cell: int)
    requires
        s.len() == 9,
        legal(s, player, cell),
        spec_has_won(s.update(cell, player), player),
    ensures
        spec_best_moves(s, player, 0).0 == WIN,
        ({
            let c = spec_best_moves(s, player, 0).1;
            c[fastest(c)].1 == 1
        }),
        legal(s, player, spec_best_move(s, player) as int),
        spec_has_won(s.update(spec_best_move(s, player) as int, player), player),
        (forall|j: int|
            legal(s, player, j) && spec_has_won(#[trigger] s.update(j, player), player) ==> j
                == cell) ==> spec_best_move(s, player) == cell,
{
    lemma_empty_prefix(s, 9);
    let n = empty_cells(s).len() as int;
    lemma_best_upto(s, player, 0, n);
    let r = spec_best_upto(s, player, 0, n);
    let i = choose|i: int| 0 <= i < n && empty_cells(s)[i] == cell as usize;
    lemma_min_max_outcome(s, player, cell, 1);
    assert(spec_min_max(s, player, empty_cells(s)[i] as int, 1) == (WIN as int, 1u32));
    assert(r.0 == WIN);
    assert(r.1.contains((cell as usize, 1u32)));
    let j = choose|j: int| 0 <= j < r.1.len() && r.1[j] == (cell as usize, 1u32);
    lemma_fastest(r.1);
    let f = fastest(r.1);
    assert(r.1[f].1 <= r.1[j].1);
    let m = r.1[f].0 as int;
    lemma_min_max_outcome(s, player, m, 1);
}

/// Scores `player` taking cell `pos` of `board` at ply `depth`: the value
/// (+100 win, 0 draw, -100 loss for `player`) and the ply at which it is
/// settled. The board itself is left untouched: the move is made on a copy.
pub fn min_max(board: &Board, player: PlayerID, pos: usize, depth: u32) -> (r: (i8, u32))
    requires
        legal(board@, player, pos as int),
        depth + empty_cells(board@).len() <= u32::MAX + 1,
    ensures
        r.0 as int == spec_min_max(board@, player, pos as int, depth).0,
        r.1 == spec_min_max(board@, player, pos as int, depth).1,
        is_outcome(r.0 as int),
    decreases empty_cells(board@).len(), 0int,
{
    let other_player = opponent(player);
    let mut b = *board;
    let played = b.play(&Dummy { id: player, play: pos });
    assert(played is Ok);
    if has_won(&b, player) {
        (WIN, depth)
    } else if b.none_empty() {
        (0, depth)
    } else {
        proof {
            lemma_play_removes_one(board@, pos as int, player);
            lemma_full_iff_no_empty(b@);
        }
        let (v, replies) = best_moves(&b, other_player, depth);
        let mut fastest_depth: u32 = replies[0].1;
        let mut i: usize = 1;
        while i < replies.len()
            invariant
                1 <= i <= replies.len(),
                fastest_depth == min_depth(replies@.subrange(0, i as int)),
            decreases replies.len() - i,
        {
            assert(replies@.subrange(0, i + 1).drop_last() == replies@.subrange(0, i as int));
            if replies[i].1 < fastest_depth {
                fastest_depth = replies[i].1;
            }
            i = i + 1;
        }
        assert(replies@.subrange(0, replies.len() as int) == replies@);
        (-v, fastest_depth)
    }
}

/// Scores every empty cell of `board` for `player` (ascending), and returns
/// the best value with the cells that reach it, each with its depth.
pub fn best_moves(board: &Board, player: PlayerID, depth: u32) -> (r: (i8, Vec<(usize, u32)>))
    requires
        valid_id(player),
        depth + empty_cells(board@).len() <= u32::MAX,
    ensures
        r.0 as int == spec_best_moves(board@, player, depth).0,
        r.1@ == spec_best_moves(board@, player, depth).1,
        is_outcome(r.0 as int),
        empty_cells(board@).len() > 0 ==> r.1@.len() > 0,
        forall|j: int|
            0 <= j < r.1@.len() ==> (#[trigger] r.1@[j]).0 < 9 && board@[r.1@[j].0 as int] == 0,
    decreases empty_cells(board@).len(), 1int,
{
    let moves = board.available_moves();
    let mut current_max: i8 = -WIN;
    let mut possibilities: Vec<(usize, u32)> = Vec::new();
    let mut k: usize = 0;
    proof {
        lemma_empty_prefix(board@, 9);
    }
    while k < moves.len()
        invariant
            moves@ == empty_cells(board@),
            k <= moves.len(),
            valid_id(player),
            depth + empty_cells(board@).len() <= u32::MAX,
            current_max as int == spec_best_upto(board@, player, depth, k as int).0,
            possibilities@ == spec_best_upto(board@, player, depth, k as int).1,
            is_outcome(current_max as int),
            k > 0 ==> possibilities@.len() > 0,
            forall|j: int|
                0 <= j < possibilities@.len() ==> (#[trigger] possibilities@[j]).0 < 9
                    && board@[possibilities@[j].0 as int] == 0,
            forall|j: int|
                0 <= j < moves@.len() ==> (#[trigger] moves@[j] as int) < 9 && board@[moves@[j] as int]
                    == 0,
        decreases moves.len() - k,
    {
        let m = moves[k];
        let (move_value, move_depth) = min_max(board, player, m, depth + 1);
        if move_value > current_max {
            current_max = move_value;
            possibilities = Vec::new();
            possibilities.push((m, move_depth));
        } else if move_value == current_max {
            possibilities.push((m, move_depth));
        }
        k = k + 1;
    }
    (current_max, possibilities)
}

/// The cell an optimal `player` takes: among the cells of best value, the
/// first (in ascending order) whose outcome is settled soonest.
pub fn best_move(board: &Board, player: PlayerID) -> (r: usize)
    requires
        valid_id(player),
        !is_full(board@),
    ensures
        r == spec_best_move(board@, player),
        r < 9,
        board@[r as int] == 0,
{
    proof {
        lemma_full_iff_no_empty(board@);
        lemma_empty_prefix(board@, 9);
    }
    let (_, moves) = best_moves(board, player, 0);
    let mut best: usize = 0;
    let mut i: usize = 1;
    while i < moves.len()
        invariant
            1 <= i <= moves.len(),
            best < i,
            best as int == fastest(moves@.subrange(0, i as int)),
        decreases moves.len() - i,
    {
        assert(moves@.subrange(0, i + 1).drop_last() == moves@.subrange(0, i as int));
        if moves[i].1 < moves[best].1 {
            best = i;
        }
        i = i + 1;
    }
    assert(moves@.subrange(0, moves.len() as int) == moves@);
    moves[best].0
}

/// The computer contestant: it plays the optimal move found by search.
pub struct Computer(pub PlayerID);

impl Player for Computer {
    open spec fn spec_id(&self) -> PlayerID {
        self.0
    }

    open spec fn can_pick(&self, cells: Seq<PlayerID>) -> bool {
        valid_id(self.0) && cells.len() == 9 && !is_full(cells)
    }

    open spec fn pick(&self, cells: Seq<PlayerID>) -> int {
        spec_best_move(cells, self.0) as int
    }

    fn id(&self) -> (r: PlayerID) {
        self.0
    }

    fn play(&self, board: &Board) -> (r: usize) {
        best_move(board, self.0)
    }
}

} // verus!
