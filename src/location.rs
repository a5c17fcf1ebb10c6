use vstd::prelude::*;

verus! {

/// A square of the 8x8 board: `x` is the file (0 = a), `y` the rank (0 = rank 1).
#[derive(Clone, Copy, Debug, PartialEq, Eq, Structural, PartialOrd, Ord)]
pub struct Location {
    pub x: u8,
    pub y: u8,
}

/// Whether the integer pair names a square of the board.
pub open spec fn in_bounds(x: int, y: int) -> bool {
    0 <= x < 8 && 0 <= y < 8
}

/// The square with the given file and rank (meaningful when they are in bounds).
pub open spec fn loc(x: int, y: int) -> Location {
    Location { x: x as u8, y: y as u8 }
}

/// Letter of a file, 'a' through 'h'.
pub open spec fn file_char(x: int) -> char {
    if x == 0 { 'a' } else if x == 1 { 'b' } else if x == 2 { 'c' } else if x == 3 { 'd' }
    else if x == 4 { 'e' } else if x == 5 { 'f' } else if x == 6 { 'g' } else { 'h' }
}

/// Digit of a rank, '1' through '8'.
pub open spec fn rank_char(y: int) -> char {
    if y == 0 { '1' } else if y == 1 { '2' } else if y == 2 { '3' } else if y == 3 { '4' }
    else if y == 4 { '5' } else if y == 5 { '6' } else if y == 6 { '7' } else { '8' }
}

impl Location {
    /// Both coordinates are on the board.
    pub open spec fn wf(&self) -> bool {
        in_bounds(self.x as int, self.y as int)
    }

    /// Row-major position of the square: rank times eight plus file.
    pub open spec fn index(&self) -> int {
        self.y as int * 8 + self.x as int
    }

    /// Algebraic name of the square, such as `a1` or `h8`.
    pub open spec fn name(&self) -> Seq<char> {
        seq![file_char(self.x as int), rank_char(self.y as int)]
    }

    /// The square at file `x` and rank `y`, or `None` when either is off the board.
    pub fn new(x: u8, y: u8) -> (r: Option<Location>)
        ensures
            in_bounds(x as int, y as int) ==> r == Some(Location { x, y }),
            !in_bounds(x as int, y as int) ==> r is None,
    {
        if x < 8 && y < 8 {
            Some(Location { x, y })
        } else {
            None
        }
    }

    /// The square at row-major position `i`, or `None` when `i` is 64 or more.
    pub fn from_index(i: u8) -> (r: Option<Location>)
        ensures
            i < 64 ==> r == Some(Location { x: (i % 8) as u8, y: (i / 8) as u8 }),
            i < 64 ==> r->Some_0.wf() && r->Some_0.index() == i,
            i >= 64 ==> r is None,
    {
        if i < 64 {
            Some(Location { x: i % 8, y: i / 8 })
        } else {
            None
        }
    }

    /// Row-major position of the square.
    pub fn to_index(&self) -> (r: usize)
        requires
            self.wf(),
        ensures
            r as int == self.index(),
            r < 64,
    {
        self.y as usize * 8 + self.x as usize
    }

    /// Algebraic name of the square.
    pub fn to_string(&self) -> (r: String)
        requires
            self.wf(),
        ensures
            r@ == self.name(),
    {
        let file = match self.x {
            0 => "a",
            1 => "b",
            2 => "c",
            3 => "d",
            4 => "e",
            5 => "f",
            6 => "g",
            _ => "h",
        };
        let rank = match self.y {
            0 => "1",
            1 => "2",
            2 => "3",
            3 => "4",
            4 => "5",
            5 => "6",
            6 => "7",
            _ => "8",
        };
        proof {
            reveal_strlit("a"); reveal_strlit("b"); reveal_strlit("c"); reveal_strlit("d");
            reveal_strlit("e"); reveal_strlit("f"); reveal_strlit("g"); reveal_strlit("h");
            reveal_strlit("1"); reveal_strlit("2"); reveal_strlit("3"); reveal_strlit("4");
            reveal_strlit("5"); reveal_strlit("6"); reveal_strlit("7"); reveal_strlit("8");
        }
        let mut r = String::from_str(file);
        r.append(rank);
        assert(r@ =~= self.name());
        r
    }
}

} // verus!
