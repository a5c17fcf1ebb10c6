use vstd::prelude::*;

use crate::location::Location;
use crate::piece::{legal_destinations, Color, Piece, Type};

verus! {

/// Why a move was refused.
#[derive(Clone, Copy, Debug, PartialEq, Eq, Structural)]
pub enum MoveError {
    /// No piece stands on the origin square.
    EmptySource(Location),
    /// The destination is not among the piece's legal destinations.
    IllegalDestination,
}

/// The 64 cells of the board, row-major: rank 1 from file a to h, then rank 2, and so on.
pub struct Board {
    cells: Vec<Option<Piece>>,
}

impl View for Board {
    type V = Seq<Option<Piece>>;

    closed spec fn view(&self) -> Seq<Option<Piece>> {
        self.cells@
    }
}

/// The piece kinds of a back rank, from file a to h.
pub open spec fn back_rank(x: int) -> Type {
    if x == 0 || x == 7 {
        Type::Rook
    } else if x == 1 || x == 6 {
        Type::Knight
    } else if x == 2 || x == 5 {
        Type::Bishop
    } else if x == 3 {
        Type::Queen
    } else {
        Type::King
    }
}

/// The content of cell `i` in the standard starting position.
pub open spec fn initial_cell(i: int) -> Option<Piece> {
    let x = i % 8;
    let y = i / 8;
    if y == 0 {
        Some(Piece { tpe: back_rank(x), color: Color::White })
    } else if y == 1 {
        Some(Piece { tpe: Type::Pawn, color: Color::White })
    } else if y == 6 {
        Some(Piece { tpe: Type::Pawn, color: Color::Black })
    } else if y == 7 {
        Some(Piece { tpe: back_rank(x), color: Color::Black })
    } else {
        None
    }
}

/// The standard starting position.
pub open spec fn initial_board() -> Seq<Option<Piece>> {
    Seq::new(64, |i: int| initial_cell(i))
}

/// The outcome of moving from `from` to `to` on board `b`: the new board, or the
/// reason the move is refused.
pub open spec fn apply_move(b: Seq<Option<Piece>>, from: Location, to: Location) -> Result<
    Seq<Option<Piece>>,
    MoveError,
> {
    match b[from.index()] {
        None => Err(MoveError::EmptySource(from)),
        Some(p) => if legal_destinations(p, b, from).contains(to) {
            Ok(b.update(from.index(), None).update(to.index(), Some(p)))
        } else {
            Err(MoveError::IllegalDestination)
        },
    }
}

fn back_rank_type(x: u8) -> (r: Type)
    ensures
        r == back_rank(x as int),
{
    if x == 0 || x == 7 {
        Type::Rook
    } else if x == 1 || x == 6 {
        Type::Knight
    } else if x == 2 || x == 5 {
        Type::Bishop
    } else if x == 3 {
        Type::Queen
    } else {
        Type::King
    }
}

impl Board {
    /// The board holds exactly 64 cells.
    pub open spec fn wf(&self) -> bool {
        self@.len() == 64
    }

    /// The standard starting position.
    pub fn new() -> (r: Board)
        ensures
            r.wf(),
            r@ == initial_board(),
    {
        let mut cells: Vec<Option<Piece>> = Vec::new();
        let mut i: u8 = 0;
        while i < 64
            invariant
                i <= 64,
                cells@ == initial_board().take(i as int),
            decreases 64 - i,
        {
            let x = i % 8;
            let y = i / 8;
            let cell = if y == 0 {
                Piece::new_opt(back_rank_type(x), Color::White)
            } else if y == 1 {
                Piece::new_opt(Type::Pawn, Color::White)
            } else if y == 6 {
                Piece::new_opt(Type::Pawn, Color::Black)
            } else if y == 7 {
                Piece::new_opt(back_rank_type(x), Color::Black)
            } else {
                None
            };
            cells.push(cell);
            assert(cells@ =~= initial_board().take(i + 1));
            i = i + 1;
        }
        assert(cells@ =~= initial_board());
        Board { cells }
    }

    /// A board with no piece on it.
    pub fn empty() -> (r: Board)
        ensures
            r.wf(),
            r@ == Seq::new(64, |i: int| None::<Piece>),
    {
        let mut cells: Vec<Option<Piece>> = Vec::new();
        let mut i: u8 = 0;
        while i < 64
            invariant
                i <= 64,
                cells@ == Seq::new(i as nat, |k: int| None::<Piece>),
            decreases 64 - i,
        {
            cells.push(None);
            assert(cells@ =~= Seq::new((i + 1) as nat, |k: int| None::<Piece>));
            i = i + 1;
        }
        Board { cells }
    }

    /// What stands on square `at`.
    pub fn get(&self, at: Location) -> (r: Option<Piece>)
        requires
            self.wf(),
            at.wf(),
        ensures
            r == self@[at.index()],
    {
        self.cells[at.to_index()]
    }

    /// Puts `cell` on square `at`, replacing what stood there.
    pub fn place(&mut self, at: Location, cell: Option<Piece>)
        requires
            old(self).wf(),
            at.wf(),
        ensures
            final(self).wf(),
            final(self)@ == old(self)@.update(at.index(), cell),
    {
        let i = at.to_index();
        self.cells.set(i, cell);
    }

    /// Moves the piece on `from` to `to` when that is one of its legal destinations,
    /// capturing what stood on `to`. A refused move leaves the board untouched.
    pub fn step(&mut self, from: Location, to: Location) -> (r: Result<(), MoveError>)
        requires
            old(self).wf(),
            from.wf(),
            to.wf(),
        ensures
            final(self).wf(),
            r is Err ==> final(self)@ == old(self)@,
            match apply_move(old(self)@, from, to) {
                Ok(b) => r is Ok && final(self)@ == b,
                Err(e) => r == Err::<(), MoveError>(e),
            },
    {
        let piece = match self.get(from) {
            None => {
                return Err(MoveError::EmptySource(from));
            },
            Some(p) => p,
        };
        let valid_moves = piece.valid_moves(self, from);
        let mut found = false;
        let mut j: usize = 0;
        while j < valid_moves.len()
            invariant
                j <= valid_moves.len(),
                found <==> exists|k: int| 0 <= k < j && valid_moves@[k] == to,
            decreases valid_moves.len() - j,
        {
            if valid_moves[j] == to {
                found = true;
            }
            j = j + 1;
        }
        if !found {
            return Err(MoveError::IllegalDestination);
        }
        self.place(from, None);
        self.place(to, Some(piece));
        Ok(())
    }
}

impl MoveError {
    /// The message that tells a client why the move was refused.
    pub open spec fn text(&self) -> Seq<char> {
        match self {
            MoveError::EmptySource(at) => "No piece at "@ + at.name(),
            MoveError::IllegalDestination => "Invalid move"@,
        }
    }

    pub fn message(&self) -> (r: String)
        requires
            self matches MoveError::EmptySource(at) ==> at.wf(),
        ensures
            r@ == self.text(),
    {
        match self {
            MoveError::EmptySource(at) => {
                let mut s = String::from_str("No piece at ");
                let name = at.to_string();
                s.append(name.as_str());
                s
            },
            MoveError::IllegalDestination => String::from_str("Invalid move"),
        }
    }
}

} // verus!
