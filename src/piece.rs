use vstd::prelude::*;

use crate::board::Board;
use crate::location::Location;
use crate::walk::{can_step, step_from, WalkStrategy};

verus! {

/// The kind of a chess piece.
#[derive(Clone, Copy, Debug, PartialEq, Eq, Structural, PartialOrd, Ord)]
pub enum Type {
    Pawn,
    Bishop,
    Knight,
    Rook,
    Queen,
    King,
}

/// The side a piece belongs to.
#[derive(Clone, Copy, Debug, PartialEq, Eq, Structural, PartialOrd, Ord)]
pub enum Color {
    White,
    Black,
}

#[derive(Clone, Copy, Debug, PartialEq, Eq, Structural, PartialOrd, Ord)]
pub struct Piece {
    pub tpe: Type,
    pub color: Color,
}

pub open spec fn rule(dx: int, dy: int, max_steps: int) -> WalkStrategy {
    WalkStrategy { dx: dx as i8, dy: dy as i8, max_steps: max_steps as u8 }
}

/// The four diagonal directions, each repeated up to `n` times.
pub open spec fn diagonal_rules(n: int) -> Seq<WalkStrategy> {
    seq![rule(-1, -1, n), rule(-1, 1, n), rule(1, -1, n), rule(1, 1, n)]
}

/// The four orthogonal directions, each repeated up to `n` times.
pub open spec fn orthogonal_rules(n: int) -> Seq<WalkStrategy> {
    seq![rule(-1, 0, n), rule(0, -1, n), rule(0, 1, n), rule(1, 0, n)]
}

/// The eight knight jumps, each taken once.
pub open spec fn knight_rules() -> Seq<WalkStrategy> {
    seq![
        rule(-2, -1, 1), rule(-2, 1, 1), rule(-1, -2, 1), rule(-1, 2, 1),
        rule(1, -2, 1), rule(1, 2, 1), rule(2, -1, 1), rule(2, 1, 1),
    ]
}

/// A pawn goes forward only: two squares from its starting rank, else one.
pub open spec fn pawn_rules(color: Color, from: Location) -> Seq<WalkStrategy> {
    match color {
        Color::White => seq![rule(0, 1, if from.y == 1 { 2 } else { 1 })],
        Color::Black => seq![rule(0, -1, if from.y == 6 { 2 } else { 1 })],
    }
}

/// The movement table: the rays a piece standing on `from` moves along.
pub open spec fn rules_of(p: Piece, from: Location) -> Seq<WalkStrategy> {
    match p.tpe {
        Type::Pawn => pawn_rules(p.color, from),
        Type::Bishop => diagonal_rules(7),
        Type::Knight => knight_rules(),
        Type::Rook => orthogonal_rules(7),
        Type::Queen => diagonal_rules(7) + orthogonal_rules(7),
        Type::King => diagonal_rules(1) + orthogonal_rules(1),
    }
}

/// The destinations a piece of `color` reaches along one ray on board `b`: empty
/// squares in turn, up to the first occupied one, which is included only when it
/// holds a piece of the other color.
pub open spec fn ray_moves(
    b: Seq<Option<Piece>>,
    color: Color,
    cur: Location,
    dx: int,
    dy: int,
    steps: nat,
) -> Seq<Location>
    decreases steps,
{
    if steps == 0 || !can_step(cur, dx, dy) {
        seq![]
    } else {
        let n = step_from(cur, dx, dy);
        match b[n.index()] {
            Some(q) => if q.color == color {
                seq![]
            } else {
                seq![n]
            },
            None => seq![n] + ray_moves(b, color, n, dx, dy, (steps - 1) as nat),
        }
    }
}

/// The destinations along each of `rules` in turn, concatenated.
pub open spec fn moves_over(
    b: Seq<Option<Piece>>,
    color: Color,
    from: Location,
    rules: Seq<WalkStrategy>,
) -> Seq<Location>
    decreases rules.len(),
{
    if rules.len() == 0 {
        seq![]
    } else {
        let r = rules.last();
        moves_over(b, color, from, rules.drop_last()) + ray_moves(
            b,
            color,
            from,
            r.dx as int,
            r.dy as int,
            r.max_steps as nat,
        )
    }
}

/// Every square piece `p` standing on `from` may move to on board `b`.
pub open spec fn legal_destinations(p: Piece, b: Seq<Option<Piece>>, from: Location) -> Seq<
    Location,
> {
    moves_over(b, p.color, from, rules_of(p, from))
}

impl Piece {
    pub fn new(tpe: Type, color: Color) -> (r: Piece)
        ensures
            r == (Piece { tpe, color }),
    {
        Piece { tpe: tpe, color: color }
    }

    pub fn new_opt(tpe: Type, color: Color) -> (r: Option<Piece>)
        ensures
            r == Some(Piece { tpe, color }),
    {
        Some(Self::new(tpe, color))
    }

    fn strategies_pawn(&self, from: Location) -> (r: Vec<WalkStrategy>)
        ensures
            r@ == pawn_rules(self.color, from),
    {
        let v = match self.color {
            Color::White => {
                if from.y == 1 {
                    vec![WalkStrategy::new(0, 1, 2)]
                } else {
                    vec![WalkStrategy::new(0, 1, 1)]
                }
            },
            Color::Black => {
                if from.y == 6 {
                    vec![WalkStrategy::new(0, -1, 2)]
                } else {
                    vec![WalkStrategy::new(0, -1, 1)]
                }
            },
        };
        assert(v@ =~= pawn_rules(self.color, from));
        v
    }

    /// The movement table for this piece standing on `from`.
    pub fn strategies(&self, from: Location) -> (r: Vec<WalkStrategy>)
        ensures
            r@ == rules_of(*self, from),
    {
        let v = match self.tpe {
            Type::Pawn => self.strategies_pawn(from),
            Type::Bishop => vec![
                WalkStrategy::new(-1, -1, 7),
                WalkStrategy::new(-1, 1, 7),
                WalkStrategy::new(1, -1, 7),
                WalkStrategy::new(1, 1, 7),
            ],
            Type::Knight => vec![
                WalkStrategy::new(-2, -1, 1),
                WalkStrategy::new(-2, 1, 1),
                WalkStrategy::new(-1, -2, 1),
                WalkStrategy::new(-1, 2, 1),
                WalkStrategy::new(1, -2, 1),
                WalkStrategy::new(1, 2, 1),
                WalkStrategy::new(2, -1, 1),
                WalkStrategy::new(2, 1, 1),
            ],
            Type::Rook => vec![
                WalkStrategy::new(-1, 0, 7),
                WalkStrategy::new(0, -1, 7),
                WalkStrategy::new(0, 1, 7),
                WalkStrategy::new(1, 0, 7),
            ],
            Type::Queen => vec![
                WalkStrategy::new(-1, -1, 7),
                WalkStrategy::new(-1, 1, 7),
                WalkStrategy::new(1, -1, 7),
                WalkStrategy::new(1, 1, 7),
                WalkStrategy::new(-1, 0, 7),
                WalkStrategy::new(0, -1, 7),
                WalkStrategy::new(0, 1, 7),
                WalkStrategy::new(1, 0, 7),
            ],
            Type::King => vec![
                WalkStrategy::new(-1, -1, 1),
                WalkStrategy::new(-1, 1, 1),
                WalkStrategy::new(1, -1, 1),
                WalkStrategy::new(1, 1, 1),
                WalkStrategy::new(-1, 0, 1),
                WalkStrategy::new(0, -1, 1),
                WalkStrategy::new(0, 1, 1),
                WalkStrategy::new(1, 0, 1),
            ],
        };
        assert(v@ =~= rules_of(*self, from));
        v
    }

    /// Every square this piece, standing on `from`, may move to on `board`, ray by
    /// ray in the order of the movement table.
    pub fn valid_moves(&self, board: &Board, from: Location) -> (r: Vec<Location>)
        requires
            board.wf(),
            from.wf(),
        ensures
            r@ == legal_destinations(*self, board@, from),
    {
        let strategies = self.strategies(from);
        let mut moves: Vec<Location> = Vec::new();
        let mut i: usize = 0;
        while i < strategies.len()
            invariant
                i <= strategies.len(),
                strategies@ == rules_of(*self, from),
                board.wf(),
                from.wf(),
                moves@ == moves_over(board@, self.color, from, strategies@.take(i as int)),
            decreases strategies.len() - i,
        {
            let strategy = strategies[i];
            let ghost done = moves@;
            let ghost whole = ray_moves(
                board@,
                self.color,
                from,
                strategy.dx as int,
                strategy.dy as int,
                strategy.max_steps as nat,
            );
            let mut walk = strategy.to_walk(from);
            loop
                invariant_except_break
                    done + whole == moves@ + ray_moves(
                        board@,
                        self.color,
                        walk.cur,
                        walk.dx as int,
                        walk.dy as int,
                        walk.steps_left as nat,
                    ),
                invariant
                    walk.wf(),
                    board.wf(),
                    walk.dx == strategy.dx,
                    walk.dy == strategy.dy,
                ensures
                    moves@ == done + whole,
                decreases walk.rest().len(),
            {
                match walk.next() {
                    None => {
                        assert(moves@ =~= done + whole);
                        break ;
                    },
                    Some(dest) => {
                        match board.get(dest) {
                            Some(piece) => {
                                if piece.color == self.color {
                                    assert(moves@ =~= done + whole);
                                    break ;
                                }
                                moves.push(dest);
                                assert(moves@ =~= done + whole);
                                break ;
                            },
                            None => {
                                moves.push(dest);
                                assert(done + whole =~= moves@ + ray_moves(
                                    board@,
                                    self.color,
                                    walk.cur,
                                    walk.dx as int,
                                    walk.dy as int,
                                    walk.steps_left as nat,
                                ));
                            },
                        }
                    },
                }
            }
            assert(strategies@.take(i + 1).drop_last() =~= strategies@.take(i as int));
            i = i + 1;
        }
        assert(strategies@.take(i as int) =~= strategies@);
        moves
    }
}

} // verus!
