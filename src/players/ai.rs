use vstd::prelude::*;

use rand::seq::SliceRandom;

use crate::game::{in_grid, Game, GameState, GameView};
use crate::players::Player;

verus! {

/// The value of the move `(x, y)` for the player who makes it: 1 if it wins,
/// -1 if it loses, 0 for a draw; a move that ends nothing is worth the
/// negation of the opponent's best reply.
pub open spec fn move_score(g: GameView, x: int, y: int) -> int
    decreases g.empties(), 0nat,
{
    if g.wf() && g.is_legal(x, y) {
        let next = g.apply(x, y);
        match next.outcome() {
            GameState::Win(m) => if m != next.to_move {
                1
            } else {
                -1
            },
            GameState::Draw => 0,
            GameState::InProgress => match best_score(next, 9) {
                Some(s) => -s,
                None => 0,
            },
        }
    } else {
        0
    }
}

/// The highest `move_score` among the legal moves of `g` with index below `k`,
/// where the move `(x, y)` has index `3 * x + y`; `None` when there is none.
pub open spec fn best_score(g: GameView, k: nat) -> Option<int>
    decreases g.empties(), k + 1,
{
    if k == 0 {
        None
    } else {
        let j = k - 1;
        let prev = best_score(g, j as nat);
        if g.is_legal(j / 3, j % 3) {
            let s = move_score(g, j / 3, j % 3);
            match prev {
                Some(b) => Some(if b >= s { b } else { s }),
                None => Some(s),
            }
        } else {
            prev
        }
    }
}

/// The computer player: it searches the whole game tree.
pub struct AI;

/// The value of the move `(x, y)` for the player to move in `game`, found by
/// searching every continuation.
pub fn score_move(mv: (usize, usize), game: &Game) -> (r: i32)
    requires
        game@.is_legal(mv.0 as int, mv.1 as int),
    ensures
        r as int == move_score(game@, mv.0 as int, mv.1 as int),
        -1 <= r <= 1,
    decreases game@.empties(),
{
    proof {
        game.lemma_wf();
    }
    let (x, y) = mv;
    let next = game.apply_move(x, y);
    match next.get_game_state() {
        GameState::Win(m) => if m != next.get_mark() {
            1
        } else {
            -1
        },
        GameState::Draw => 0,
        GameState::InProgress => {
            let mut best: Option<i32> = None;
            let mut k: usize = 0;
            while k < 9
                invariant
                    k <= 9,
                    next@ == game@.apply(x as int, y as int),
                    next@.wf(),
                    next@.empties() < game@.empties(),
                    best.is_some() == best_score(next@, k as nat).is_some(),
                    best.is_some() ==> best.unwrap() as int == best_score(next@, k as nat).unwrap(),
                    best.is_some() ==> -1 <= best.unwrap() <= 1,
                decreases 9 - k,
            {
                let (rx, ry) = (k / 3, k % 3);
                if next.is_valid_move(rx, ry) {
                    let s = score_move((rx, ry), &next);
                    best = match best {
                        Some(b) => Some(if b >= s { b } else { s }),
                        None => Some(s),
                    };
                }
                k += 1;
            }
            match best {
                Some(b) => -b,
                None => 0,
            }
        }
    }
}

/// Relies on rand's `SliceRandom::shuffle` with `rand::thread_rng()`: it only
/// swaps elements, so the result is a permutation of the input.
#[verifier::external_body]
fn shuffle_moves(moves: &mut Vec<(usize, usize, i32)>)
    ensures
        final(moves)@.to_multiset() == old(moves)@.to_multiset(),
{
    moves.shuffle(&mut rand::thread_rng());
}

/// `e` is a legal move of `g` paired with its score.
pub open spec fn is_scored_move(g: GameView, e: (usize, usize, i32)) -> bool {
    g.is_legal(e.0 as int, e.1 as int) && e.2 as int == move_score(g, e.0 as int, e.1 as int)
}

impl AI {
    /// Picks a move of the highest score, with ties among the best moves broken
    /// uniformly at random, and returns it with its score.
    pub fn choose_move(&self, game: &Game) -> (r: (usize, usize, i32))
        requires
            game@.has_legal_move(),
        ensures
            game@.is_legal(r.0 as int, r.1 as int),
            r.2 as int == move_score(game@, r.0 as int, r.1 as int),
            best_score(game@, 9) == Some(r.2 as int),
    {
        broadcast use vstd::seq_lib::group_to_multiset_ensures;

        let ghost g = game@;
        let mut moves: Vec<(usize, usize, i32)> = Vec::new();
        let ghost mut w: int = 0;
        let mut k: usize = 0;
        while k < 9
            invariant
                k <= 9,
                g == game@,
                forall|i: int| 0 <= i < moves.len() ==> is_scored_move(g, #[trigger] moves@[i]),
                best_score(g, k as nat).is_some() == (moves.len() > 0),
                moves.len() == 0 ==> forall|x: int, y: int|
                    in_grid(x, y) && 3 * x + y < k ==> !#[trigger] g.is_legal(x, y),
                moves.len() > 0 ==> {
                    &&& 0 <= w < moves.len()
                    &&& moves@[w].2 as int == best_score(g, k as nat).unwrap()
                    &&& forall|i: int|
                        0 <= i < moves.len() ==> (#[trigger] moves@[i]).2 as int <= best_score(
                            g,
                            k as nat,
                        ).unwrap()
                },
            decreases 9 - k,
        {
            let (x, y) = (k / 3, k % 3);
            assert(3 * x + y == k);
            if game.is_valid_move(x, y) {
                let s = score_move((x, y), game);
                proof {
                    if moves.len() == 0 || s as int > best_score(g, k as nat).unwrap() {
                        w = moves.len() as int;
                    }
                }
                moves.push((x, y, s));
            }
            k += 1;
        }
        let ghost found = moves@;
        shuffle_moves(&mut moves);
        assert(found.contains(found[w]));
        assert(moves@.to_multiset().count(found[w]) > 0);
        let mut bi: usize = 0;
        let mut i: usize = 1;
        while i < moves.len()
            invariant
                moves@.to_multiset() == found.to_multiset(),
                bi < moves.len(),
                1 <= i <= moves.len(),
                forall|j: int| 0 <= j < i ==> (#[trigger] moves@[j]).2 <= moves@[bi as int].2,
            decreases moves.len() - i,
        {
            if moves[i].2 >= moves[bi].2 {
                bi = i;
            }
            i += 1;
        }
        let r = moves[bi];
        proof {
            assert(moves@.contains(r));
            assert(found.to_multiset().count(r) > 0);
            assert(found.contains(r));
            assert(moves@.contains(found[w]));
        }
        r
    }
}

impl Player for AI {
    fn get_move(&self, game: &Game) -> (r: (usize, usize)) {
        let (x, y, _score) = self.choose_move(game);
        (x, y)
    }
}

/// Every score is -1, 0 or 1.
proof fn lemma_move_score_bounds(g: GameView, x: int, y: int)
    ensures
        -1 <= move_score(g, x, y) <= 1,
    decreases g.empties(), 0nat,
{
    if g.wf() && g.is_legal(x, y) {
        let next = g.apply(x, y);
        if next.outcome() == GameState::InProgress {
            lemma_best_score_bounds(next, 9);
        }
    }
}

proof fn lemma_best_score_bounds(g: GameView, k: nat)
    ensures
        best_score(g, k) is Some ==> -1 <= best_score(g, k).unwrap() <= 1,
    decreases g.empties(), k + 1,
{
    if k > 0 {
        let j = k - 1;
        lemma_best_score_bounds(g, j as nat);
        lemma_move_score_bounds(g, j / 3, j % 3);
    }
}

/// The best score below index `k` is at least the score of each legal move
/// below `k`.
proof fn lemma_best_score_covers(g: GameView, k: nat, x: int, y: int)
    requires
        g.is_legal(x, y),
        3 * x + y < k,
    ensures
        best_score(g, k) is Some,
        best_score(g, k).unwrap() >= move_score(g, x, y),
    decreases k,
{
    let j = k - 1;
    if 3 * x + y < j {
        lemma_best_score_covers(g, j as nat, x, y);
    } else {
        assert(j / 3 == x && j % 3 == y);
    }
}

/// The best score below index `k`, if any, is the score of a legal move below `k`.
proof fn lemma_best_score_attained(g: GameView, k: nat)
    requires
        k <= 9,
    ensures
        best_score(g, k) is Some ==> exists|x: int, y: int|
            in_grid(x, y) && 3 * x + y < k && #[trigger] g.is_legal(x, y) && best_score(g, k).unwrap()
                == move_score(g, x, y),
    decreases k,
{
    if k > 0 {
        let j = k - 1;
        lemma_best_score_attained(g, j as nat);
        let (x, y) = (j / 3, j % 3);
        assert(in_grid(x, y) && 3 * x + y == j);
    }
}

/// A move that completes a line of the player to move is worth 1, and no move
/// of that position is worth more.
pub proof fn lemma_winning_move_is_best(g: GameView, x: int, y: int)
    requires
        g.wf(),
        g.is_legal(x, y),
        g.apply(x, y).winner() == Some(g.to_move),
    ensures
        move_score(g, x, y) == 1,
        best_score(g, 9) == Some(1int),
{
    lemma_best_score_covers(g, 9, x, y);
    lemma_best_score_bounds(g, 9);
}

/// Where every legal move lets the opponent complete a line with the next
/// move, the best score is -1: the search still finds a move, and it is worth -1.
pub proof fn lemma_lost_position_scores_minus_one(g: GameView)
    requires
        g.wf(),
        g.has_legal_move(),
        forall|x: int, y: int|
            #[trigger] g.is_legal(x, y) ==> {
                let next = g.apply(x, y);
                &&& next.outcome() == GameState::InProgress
                &&& exists|a: int, b: int|
                    #[trigger] next.is_legal(a, b) && next.apply(a, b).winner() == Some(next.to_move)
            },
    ensures
        best_score(g, 9) == Some(-1int),
{
    let (x0, y0) = choose|x: int, y: int| g.is_legal(x, y);
    lemma_best_score_covers(g, 9, x0, y0);
    lemma_best_score_attained(g, 9);
    let (x, y) = choose|x: int, y: int|
        in_grid(x, y) && 3 * x + y < 9 && #[trigger] g.is_legal(x, y) && best_score(g, 9).unwrap()
            == move_score(g, x, y);
    let next = g.apply(x, y);
    let (a, b) = choose|a: int, b: int|
        #[trigger] next.is_legal(a, b) && next.apply(a, b).winner() == Some(next.to_move);
    lemma_winning_move_is_best(next, a, b);
}

} // verus!
