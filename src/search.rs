use vstd::prelude::*;

use crate::lookup::default_entries_usable;
use crate::magic::LoadError;
use crate::movegen::MoveGen;
use crate::moves::{successor, Move};
use crate::position::{Color, Piece, Position};
use crate::square::Square;

verus! {

/// The size of a checkmate's score: a mated White scores minus this, a mated Black plus this.
pub const MATE_SCORE: i32 = 1000;

/// The material value of a piece: pawn 1, knight 3, bishop 3, rook 5, queen 9, king 100.
pub open spec fn piece_value(p: Piece) -> int {
    match p {
        Piece::Pawn => 1,
        Piece::Knight => 3,
        Piece::Bishop => 3,
        Piece::Rook => 5,
        Piece::Queen => 9,
        Piece::King => 100,
    }
}

/// The value of what stands on square `s`: positive for White, negative for Black.
pub open spec fn square_value(pos: Position, s: int) -> int {
    match pos.piece_at_spec(s) {
        Some((p, Color::White)) => piece_value(p),
        Some((p, Color::Black)) => -piece_value(p),
        None => 0,
    }
}

/// The material balance of the first `n` squares.
pub open spec fn material_upto(pos: Position, n: nat) -> int
    decreases n,
{
    if n == 0 {
        0
    } else {
        material_upto(pos, (n - 1) as nat) + square_value(pos, n - 1)
    }
}

/// The material balance of a position: White's piece values minus Black's.
pub open spec fn material(pos: Position) -> int {
    material_upto(pos, 64)
}

/// The best of the first `n` scores for the maximizing (or minimizing) side and its index,
/// the first one on ties; `-1` when none beats the starting bound.
pub open spec fn pick(scores: Seq<int>, maximizing: bool, n: nat) -> (int, int)
    decreases n,
{
    if n == 0 {
        (if maximizing { i32::MIN as int } else { i32::MAX as int }, -1)
    } else {
        let (best, idx) = pick(scores, maximizing, (n - 1) as nat);
        let c = scores[n - 1];
        if (maximizing && c > best) || (!maximizing && c < best) {
            (c, n - 1)
        } else {
            (best, idx)
        }
    }
}

/// The minimax value of a position searched `depth` plies deep, and the move that reaches it:
/// material at depth 0, a draw once the fifty-move clock reaches 100, the mate score against
/// the side to move when it is checkmated, a draw when it is stalemated, and otherwise the
/// best child for the side whose turn it is.
pub open spec fn minimax(gen: MoveGen, pos: Position, depth: nat, maximizing: bool) -> (int, Option<Move>)
    decreases depth, 0nat,
{
    if depth == 0 {
        (material(pos), None)
    } else if pos.halfmove_clock >= 100 {
        (0, None)
    } else {
        let moves = gen.legal_moves(pos);
        if moves.len() == 0 {
            if gen.in_check(pos) {
                (if maximizing { -MATE_SCORE as int } else { MATE_SCORE as int }, None)
            } else {
                (0, None)
            }
        } else {
            let scores = child_scores(gen, pos, moves, (depth - 1) as nat, !maximizing, moves.len());
            let (best, idx) = pick(scores, maximizing, moves.len());
            (best, if idx < 0 { None } else { Some(moves[idx]) })
        }
    }
}

/// The minimax values, `depth` plies deep, of the positions after each of the first `n` moves.
pub open spec fn child_scores(gen: MoveGen, pos: Position, moves: Seq<Move>, depth: nat, maximizing: bool, n: nat) -> Seq<int>
    decreases depth, n,
{
    if n == 0 || n > moves.len() {
        Seq::empty()
    } else {
        child_scores(gen, pos, moves, depth, maximizing, (n - 1) as nat).push(
            minimax(gen, successor(pos, moves[n - 1]), depth, maximizing).0,
        )
    }
}

/// Each of the child scores is the minimax value of its child.
pub proof fn lemma_child_scores(gen: MoveGen, pos: Position, moves: Seq<Move>, depth: nat, maximizing: bool, n: nat)
    requires
        n <= moves.len(),
    ensures
        child_scores(gen, pos, moves, depth, maximizing, n).len() == n,
        forall|i: int| 0 <= i < n ==> #[trigger] child_scores(gen, pos, moves, depth, maximizing, n)[i]
            == minimax(gen, successor(pos, moves[i]), depth, maximizing).0,
    decreases n,
{
    if n > 0 {
        lemma_child_scores(gen, pos, moves, depth, maximizing, (n - 1) as nat);
    }
}

/// How many positions a search of `pos` to `depth` plies scores at depth 0: one at depth 0,
/// none when it stops on the fifty-move rule, mate or stalemate, and otherwise the sum over
/// the positions after each move.
pub open spec fn leaves(gen: MoveGen, pos: Position, depth: nat) -> nat
    decreases depth, 0nat,
{
    if depth == 0 {
        1
    } else if pos.halfmove_clock >= 100 {
        0
    } else {
        let moves = gen.legal_moves(pos);
        child_leaves(gen, pos, moves, (depth - 1) as nat, moves.len())
    }
}

/// The positions scored at depth 0 below the positions after each of the first `n` moves.
pub open spec fn child_leaves(gen: MoveGen, pos: Position, moves: Seq<Move>, depth: nat, n: nat) -> nat
    decreases depth, n,
{
    if n == 0 || n > moves.len() {
        0
    } else {
        child_leaves(gen, pos, moves, depth, (n - 1) as nat) + leaves(gen, successor(pos, moves[n - 1]), depth)
    }
}

/// `a + b`, or the largest `usize` when the sum is larger.
pub open spec fn add_capped(a: nat, b: nat) -> nat {
    if a + b > usize::MAX { usize::MAX as nat } else { a + b }
}

/// The search engine: a move generator and a count of the positions it has evaluated.
pub struct Engine {
    pub nodes_evaluated: usize,
    pub move_gen: MoveGen,
}

/// The material balance of a position.
pub fn evaluate(pos: &Position) -> (r: i32)
    ensures
        r == material(*pos),
{
    let mut val: i32 = 0;
    let mut i: u8 = 0;
    while i < 64
        invariant
            i <= 64,
            val == material_upto(*pos, i as nat),
            -100 * i <= val <= 100 * i,
        decreases 64 - i,
    {
        let v: i32 = match pos.piece_at(&Square::from_index(i)) {
            Some((p, c)) => {
                let value: i32 = match p {
                    Piece::Pawn => 1,
                    Piece::Knight => 3,
                    Piece::Bishop => 3,
                    Piece::Rook => 5,
                    Piece::Queen => 9,
                    Piece::King => 100,
                };
                if c == Color::White { value } else { -value }
            },
            None => 0,
        };
        val = val + v;
        i = i + 1;
    }
    val
}

impl Engine {
    /// An engine on the built-in magic tables, with no positions evaluated yet.
    pub fn new() -> (r: Result<Engine, LoadError>)
        ensures
            r.is_ok() <==> default_entries_usable(),
            r.is_ok() ==> r.unwrap().move_gen.wf() && r.unwrap().nodes_evaluated == 0,
    {
        match MoveGen::new() {
            Ok(move_gen) => Ok(Engine { nodes_evaluated: 0, move_gen }),
            Err(e) => Err(e),
        }
    }

    /// An engine on the given generator.
    pub fn with_move_gen(move_gen: MoveGen) -> (r: Engine)
        ensures
            r.move_gen == move_gen,
            r.nodes_evaluated == 0,
    {
        Engine { nodes_evaluated: 0, move_gen }
    }

    /// Minimax to `depth` plies; see `minimax`. Each position scored at depth 0 adds one to
    /// the count of evaluated positions.
    pub fn minmax(&mut self, position: &Position, depth: usize, maximizing_player: bool) -> (r: (i32, Option<Move>))
        requires
            old(self).move_gen.wf(),
        ensures
            r.0 == minimax(old(self).move_gen, *position, depth as nat, maximizing_player).0,
            r.1 == minimax(old(self).move_gen, *position, depth as nat, maximizing_player).1,
            final(self).move_gen == old(self).move_gen,
            final(self).nodes_evaluated == add_capped(
                old(self).nodes_evaluated as nat,
                leaves(old(self).move_gen, *position, depth as nat),
            ),
        decreases depth,
    {
        if depth == 0 {
            if self.nodes_evaluated < usize::MAX {
                self.nodes_evaluated = self.nodes_evaluated + 1;
            }
            return (evaluate(position), None);
        }
        if position.halfmove_clock >= 100 {
            return (0, None);
        }
        let moves = self.move_gen.generate_legal_moves(position);
        if moves.len() == 0 {
            if self.move_gen.is_check(position) {
                return (if maximizing_player { -MATE_SCORE } else { MATE_SCORE }, None);
            } else {
                return (0, None);
            }
        }
        let ghost gen = self.move_gen;
        let ghost scores = child_scores(gen, *position, moves@, (depth - 1) as nat, !maximizing_player, moves@.len());
        proof {
            lemma_child_scores(gen, *position, moves@, (depth - 1) as nat, !maximizing_player, moves@.len());
        }
        let mut best_score: i32 = if maximizing_player { i32::MIN } else { i32::MAX };
        let mut best_move: Option<Move> = None;
        let mut i: usize = 0;
        while i < moves.len()
            invariant
                self.move_gen == gen,
                gen.wf(),
                moves@ == gen.legal_moves(*position),
                depth > 0,
                scores.len() == moves@.len(),
                forall|j: int| 0 <= j < moves@.len() ==> #[trigger] scores[j]
                    == minimax(gen, successor(*position, moves@[j]), (depth - 1) as nat, !maximizing_player).0,
                scores == child_scores(gen, *position, moves@, (depth - 1) as nat, !maximizing_player, moves@.len()),
                i <= moves@.len(),
                best_score == pick(scores, maximizing_player, i as nat).0,
                best_move == (if pick(scores, maximizing_player, i as nat).1 < 0 {
                    None
                } else {
                    Some(moves@[pick(scores, maximizing_player, i as nat).1])
                }),
                0 <= pick(scores, maximizing_player, i as nat).1 ==> pick(scores, maximizing_player, i as nat).1 < i,
                self.nodes_evaluated == add_capped(
                    old(self).nodes_evaluated as nat,
                    child_leaves(gen, *position, moves@, (depth - 1) as nat, i as nat),
                ),
            decreases moves@.len() - i,
        {
            let mv = moves[i];
            let mut pos = *position;
            let _ = pos.make_move(&mv);
            let (score, _) = self.minmax(&pos, depth - 1, !maximizing_player);
            if (maximizing_player && score > best_score) || (!maximizing_player && score < best_score) {
                best_score = score;
                best_move = Some(mv);
            }
            i = i + 1;
        }
        (best_score, best_move)
    }
}

/// The score a search reports and the move that reaches it, when it ends on a move.
pub open spec fn search_outcome(gen: MoveGen, pos: Position, depth: nat) -> Option<(i32, Move)> {
    let (score, mv) = minimax(gen, pos, depth, pos.turn == Color::White);
    match mv {
        Some(m) => Some((score as i32, m)),
        None => None,
    }
}

/// A search for the best move of a position.
pub trait Search {
    /// The searcher is ready to search.
    spec fn search_ready(&self) -> bool;

    /// What a search of `pos` to `depth` plies reports.
    spec fn outcome(&self, pos: Position, depth: nat) -> Option<(i32, Move)>;

    /// How many positions the searcher has scored so far.
    spec fn evaluated(&self) -> nat;

    /// How many positions a search of `pos` to `depth` plies scores.
    spec fn scored(&self, pos: Position, depth: nat) -> nat;

    /// The best move for the side to move and its score, searched `depth` plies deep; `None`
    /// when the search ends without a move (depth 0, a draw by the fifty-move rule, mate or
    /// stalemate).
    fn search(&mut self, position: &Position, depth: usize) -> (r: Option<(i32, Move)>)
        requires
            old(self).search_ready(),
        ensures
            r == old(self).outcome(*position, depth as nat),
            final(self).search_ready(),
            final(self).evaluated() == add_capped(old(self).evaluated(), old(self).scored(*position, depth as nat)),
    ;
}

impl Search for Engine {
    open spec fn search_ready(&self) -> bool {
        self.move_gen.wf()
    }

    open spec fn outcome(&self, pos: Position, depth: nat) -> Option<(i32, Move)> {
        search_outcome(self.move_gen, pos, depth)
    }

    open spec fn evaluated(&self) -> nat {
        self.nodes_evaluated as nat
    }

    open spec fn scored(&self, pos: Position, depth: nat) -> nat {
        leaves(self.move_gen, pos, depth)
    }

    fn search(&mut self, position: &Position, depth: usize) -> (r: Option<(i32, Move)>) {
        let maximizing_player = position.turn == Color::White;
        let (score, mv) = self.minmax(position, depth, maximizing_player);
        match mv {
            Some(m) => Some((score, m)),
            None => None,
        }
    }
}

} // verus!
