use vstd::prelude::*;

use crate::board::apply_move;
use crate::location::{in_bounds, loc, Location};
use crate::piece::{legal_destinations, moves_over, ray_moves, rules_of, Color, Piece, Type};
use crate::render::cell_codes;
use crate::walk::{can_step, step_from, WalkStrategy};

verus! {

/// A board of 64 cells, all of them empty.
pub open spec fn is_empty_board(b: Seq<Option<Piece>>) -> bool {
    b.len() == 64 && forall|i: int| 0 <= i < 64 ==> #[trigger] b[i] is None
}

pub open spec fn abs(v: int) -> int {
    if v < 0 { -v } else { v }
}

/// The king-move distance between two squares.
pub open spec fn chebyshev(a: Location, b: Location) -> int {
    let dx = abs(a.x - b.x);
    let dy = abs(a.y - b.y);
    if dx < dy { dy } else { dx }
}

/// On an empty board a knight away from the two outer files and ranks reaches
/// eight distinct squares.
pub proof fn lemma_knight_interior(color: Color, b: Seq<Option<Piece>>, from: Location)
    requires
        is_empty_board(b),
        2 <= from.x <= 5,
        2 <= from.y <= 5,
    ensures
        legal_destinations(Piece { tpe: Type::Knight, color }, b, from).len() == 8,
        legal_destinations(Piece { tpe: Type::Knight, color }, b, from).no_duplicates(),
{
    reveal_with_fuel(moves_over, 9);
    reveal_with_fuel(ray_moves, 2);
    let x = from.x as int;
    let y = from.y as int;
    let d = legal_destinations(Piece { tpe: Type::Knight, color }, b, from);
    assert(b[loc(x - 2, y - 1).index()] is None);
    assert(b[loc(x - 2, y + 1).index()] is None);
    assert(b[loc(x - 1, y - 2).index()] is None);
    assert(b[loc(x - 1, y + 2).index()] is None);
    assert(b[loc(x + 1, y - 2).index()] is None);
    assert(b[loc(x + 1, y + 2).index()] is None);
    assert(b[loc(x + 2, y - 1).index()] is None);
    assert(b[loc(x + 2, y + 1).index()] is None);
    assert(d =~= seq![
        loc(x - 2, y - 1), loc(x - 2, y + 1), loc(x - 1, y - 2), loc(x - 1, y + 2),
        loc(x + 1, y - 2), loc(x + 1, y + 2), loc(x + 2, y - 1), loc(x + 2, y + 1),
    ]);
}

/// On an empty board a knight in a corner reaches exactly two squares.
pub proof fn lemma_knight_corner(color: Color, b: Seq<Option<Piece>>, from: Location)
    requires
        is_empty_board(b),
        from.x == 0 || from.x == 7,
        from.y == 0 || from.y == 7,
    ensures
        legal_destinations(Piece { tpe: Type::Knight, color }, b, from).len() == 2,
        legal_destinations(Piece { tpe: Type::Knight, color }, b, from).no_duplicates(),
{
    reveal_with_fuel(moves_over, 9);
    reveal_with_fuel(ray_moves, 2);
    let x = from.x as int;
    let y = from.y as int;
    let d = legal_destinations(Piece { tpe: Type::Knight, color }, b, from);
    let sx: int = if x == 0 { 1 } else { -1 };
    let sy: int = if y == 0 { 1 } else { -1 };
    assert(b[loc(x + sx, y + 2 * sy).index()] is None);
    assert(b[loc(x + 2 * sx, y + sy).index()] is None);
    if x == 0 && y == 0 {
        assert(d =~= seq![loc(1, 2), loc(2, 1)]);
    } else if x == 0 {
        assert(d =~= seq![loc(1, 5), loc(2, 6)]);
    } else if y == 0 {
        assert(d =~= seq![loc(5, 1), loc(6, 2)]);
    } else {
        assert(d =~= seq![loc(5, 6), loc(6, 5)]);
    }
}

/// On an empty board a king away from the edge reaches eight distinct squares,
/// each one king-move away.
pub proof fn lemma_king_interior(color: Color, b: Seq<Option<Piece>>, from: Location)
    requires
        is_empty_board(b),
        1 <= from.x <= 6,
        1 <= from.y <= 6,
    ensures
        legal_destinations(Piece { tpe: Type::King, color }, b, from).len() == 8,
        legal_destinations(Piece { tpe: Type::King, color }, b, from).no_duplicates(),
        forall|i: int|
            0 <= i < 8 ==> chebyshev(
                from,
                #[trigger] legal_destinations(Piece { tpe: Type::King, color }, b, from)[i],
            ) == 1,
{
    reveal_with_fuel(moves_over, 9);
    reveal_with_fuel(ray_moves, 2);
    let x = from.x as int;
    let y = from.y as int;
    let d = legal_destinations(Piece { tpe: Type::King, color }, b, from);
    assert(b[loc(x - 1, y - 1).index()] is None);
    assert(b[loc(x - 1, y + 1).index()] is None);
    assert(b[loc(x + 1, y - 1).index()] is None);
    assert(b[loc(x + 1, y + 1).index()] is None);
    assert(b[loc(x - 1, y).index()] is None);
    assert(b[loc(x, y - 1).index()] is None);
    assert(b[loc(x, y + 1).index()] is None);
    assert(b[loc(x + 1, y).index()] is None);
    assert(d =~= seq![
        loc(x - 1, y - 1), loc(x - 1, y + 1), loc(x + 1, y - 1), loc(x + 1, y + 1),
        loc(x - 1, y), loc(x, y - 1), loc(x, y + 1), loc(x + 1, y),
    ]);
}

/// A white pawn on its starting rank goes one or two squares forward when both
/// are empty.
pub proof fn lemma_pawn_double_step(b: Seq<Option<Piece>>, from: Location)
    requires
        b.len() == 64,
        from.wf(),
        from.y == 1,
        b[loc(from.x as int, 2).index()] is None,
        b[loc(from.x as int, 3).index()] is None,
    ensures
        legal_destinations(Piece { tpe: Type::Pawn, color: Color::White }, b, from) == seq![
            loc(from.x as int, 2),
            loc(from.x as int, 3),
        ],
{
    reveal_with_fuel(moves_over, 2);
    reveal_with_fuel(ray_moves, 3);
    let d = legal_destinations(Piece { tpe: Type::Pawn, color: Color::White }, b, from);
    assert(d =~= seq![loc(from.x as int, 2), loc(from.x as int, 3)]);
}

/// A white pawn on its starting rank has no destination when a piece of its own
/// color stands right in front of it.
pub proof fn lemma_pawn_blocked(b: Seq<Option<Piece>>, from: Location)
    requires
        b.len() == 64,
        from.wf(),
        from.y == 1,
        b[loc(from.x as int, 2).index()] matches Some(q) && q.color == Color::White,
    ensures
        legal_destinations(Piece { tpe: Type::Pawn, color: Color::White }, b, from).len() == 0,
{
    reveal_with_fuel(moves_over, 2);
    reveal_with_fuel(ray_moves, 2);
    let d = legal_destinations(Piece { tpe: Type::Pawn, color: Color::White }, b, from);
    assert(d =~= seq![]);
}

pub open spec fn sgn(v: int) -> int {
    if v > 0 { 1 } else if v < 0 { -1 } else { 0 }
}

/// The square `k` steps of `(dx, dy)` away from `from`.
pub open spec fn ray_sq(from: Location, dx: int, dy: int, k: int) -> Location {
    loc(from.x + k * dx, from.y + k * dy)
}

pub open spec fn ray_of(b: Seq<Option<Piece>>, color: Color, from: Location, r: WalkStrategy) -> Seq<
    Location,
> {
    ray_moves(b, color, from, r.dx as int, r.dy as int, r.max_steps as nat)
}

/// Every destination of a ray lies on the board, strictly ahead of where it starts.
proof fn lemma_ray_ahead(
    b: Seq<Option<Piece>>,
    color: Color,
    cur: Location,
    dx: int,
    dy: int,
    steps: nat,
)
    requires
        cur.wf(),
    ensures
        forall|e: Location|
            #[trigger] ray_moves(b, color, cur, dx, dy, steps).contains(e) ==> e.wf() && sgn(
                e.x - cur.x,
            ) == sgn(dx) && sgn(e.y - cur.y) == sgn(dy),
    decreases steps,
{
    if steps == 0 || !can_step(cur, dx, dy) {
        assert(ray_moves(b, color, cur, dx, dy, steps) =~= seq![]);
        assert(forall|e: Location| !ray_moves(b, color, cur, dx, dy, steps).contains(e));
    } else {
        let n = step_from(cur, dx, dy);
        lemma_ray_ahead(b, color, n, dx, dy, (steps - 1) as nat);
        let s = ray_moves(b, color, cur, dx, dy, steps);
        assert forall|e: Location| s.contains(e) implies e.wf() && sgn(e.x - cur.x) == sgn(dx)
            && sgn(e.y - cur.y) == sgn(dy) by {
            let i = choose|i: int| 0 <= i < s.len() && s[i] == e;
            if i > 0 {
                let rest = ray_moves(b, color, n, dx, dy, (steps - 1) as nat);
                assert(rest[i - 1] == e);
                assert(rest.contains(e));
            }
        }
        assert(forall|e: Location| #[trigger] ray_moves(b, color, cur, dx, dy, steps).contains(e) ==> e.wf() && sgn(e.x - cur.x) == sgn(dx)
            && sgn(e.y - cur.y) == sgn(dy));
    }
}

/// A destination of the rules is a destination of one of their rays, and back.
proof fn lemma_moves_over_contains(
    b: Seq<Option<Piece>>,
    color: Color,
    from: Location,
    rules: Seq<WalkStrategy>,
    e: Location,
)
    ensures
        moves_over(b, color, from, rules).contains(e) <==> exists|i: int|
            0 <= i < rules.len() && #[trigger] ray_of(b, color, from, rules[i]).contains(e),
    decreases rules.len(),
{
    if rules.len() > 0 {
        let a = moves_over(b, color, from, rules.drop_last());
        let c = ray_of(b, color, from, rules.last());
        lemma_moves_over_contains(b, color, from, rules.drop_last(), e);
        assert(moves_over(b, color, from, rules) == a + c);
        if (a + c).contains(e) {
            let i = choose|i: int| 0 <= i < (a + c).len() && (a + c)[i] == e;
            if i < a.len() {
                assert(a[i] == e);
                assert(a.contains(e));
                let k = choose|k: int|
                    0 <= k < rules.drop_last().len() && #[trigger] ray_of(
                        b,
                        color,
                        from,
                        rules.drop_last()[k],
                    ).contains(e);
                assert(rules.drop_last()[k] == rules[k]);
            } else {
                assert(c[i - a.len()] == e);
                assert(c.contains(e));
                assert(ray_of(b, color, from, rules[rules.len() - 1]).contains(e));
            }
        }
        if exists|i: int| 0 <= i < rules.len() && #[trigger] ray_of(b, color, from, rules[i]).contains(e) {
            let i = choose|i: int| 0 <= i < rules.len() && #[trigger] ray_of(b, color, from, rules[i]).contains(e);
            if i < rules.len() - 1 {
                assert(rules.drop_last()[i] == rules[i]);
                assert(a.contains(e));
                let j = choose|j: int| 0 <= j < a.len() && a[j] == e;
                assert((a + c)[j] == e);
            } else {
                let j = choose|j: int| 0 <= j < c.len() && c[j] == e;
                assert((a + c)[a.len() + j] == e);
            }
        }
    }
}

/// No piece can stay where it stands: its origin is never among its destinations.
pub proof fn lemma_origin_not_destination(p: Piece, b: Seq<Option<Piece>>, from: Location)
    requires
        from.wf(),
    ensures
        !legal_destinations(p, b, from).contains(from),
{
    let rules = rules_of(p, from);
    assert(forall|i: int| 0 <= i < rules.len() ==> !(rules[i].dx == 0 && rules[i].dy == 0));
    lemma_moves_over_contains(b, p.color, from, rules, from);
    if legal_destinations(p, b, from).contains(from) {
        let i = choose|i: int| 0 <= i < rules.len() && #[trigger] ray_of(b, p.color, from, rules[i]).contains(from);
        let r = rules[i];
        lemma_ray_ahead(b, p.color, from, r.dx as int, r.dy as int, r.max_steps as nat);
    }
}

/// Moving a piece changes exactly two entries of the board's text form: the
/// destination takes the code that stood on the origin, the origin becomes empty,
/// and the other 62 entries stay as they were.
pub proof fn lemma_move_round_trip(b: Seq<Option<Piece>>, from: Location, to: Location)
    requires
        b.len() == 64,
        from.wf(),
        to.wf(),
        apply_move(b, from, to) is Ok,
    ensures
        ({
            let before = cell_codes(b);
            let after = cell_codes(apply_move(b, from, to)->Ok_0);
            &&& after.len() == 64
            &&& after[to.index()] == before[from.index()]
            &&& after[from.index()] == Seq::<char>::empty()
            &&& forall|i: int|
                0 <= i < 64 && i != from.index() && i != to.index() ==> after[i] == before[i]
        }),
{
    let p = b[from.index()]->Some_0;
    lemma_origin_not_destination(p, b, from);
    assert(from.index() != to.index());
    let after = cell_codes(apply_move(b, from, to)->Ok_0);
    assert(after[from.index()] =~= Seq::<char>::empty());
}

pub open spec fn is_unit(dx: int, dy: int) -> bool {
    -1 <= dx <= 1 && -1 <= dy <= 1 && !(dx == 0 && dy == 0)
}

pub open spec fn is_slider(t: Type) -> bool {
    t == Type::Rook || t == Type::Bishop || t == Type::Queen
}

proof fn lemma_sq_shift(cur: Location, dx: int, dy: int, j: int)
    requires
        can_step(cur, dx, dy),
    ensures
        ray_sq(step_from(cur, dx, dy), dx, dy, j) == ray_sq(cur, dx, dy, j + 1),
{
    assert(cur.x + dx + j * dx == cur.x + (j + 1) * dx) by (nonlinear_arith);
    assert(cur.y + dy + j * dy == cur.y + (j + 1) * dy) by (nonlinear_arith);
}

proof fn lemma_sq_sign(cur: Location, dx: int, dy: int, j: int)
    requires
        is_unit(dx, dy),
        1 <= j,
        in_bounds(cur.x + j * dx, cur.y + j * dy),
    ensures
        ray_sq(cur, dx, dy, j).x == cur.x + j * dx,
        ray_sq(cur, dx, dy, j).y == cur.y + j * dy,
        sgn(j * dx) == dx,
        sgn(j * dy) == dy,
{
    assert(sgn(j * dx) == dx) by (nonlinear_arith)
        requires -1 <= dx <= 1, 1 <= j, sgn(j * dx) == (if j * dx > 0 { 1int } else if j * dx < 0 { -1int } else { 0int });
    assert(sgn(j * dy) == dy) by (nonlinear_arith)
        requires -1 <= dy <= 1, 1 <= j, sgn(j * dy) == (if j * dy > 0 { 1int } else if j * dy < 0 { -1int } else { 0int });
}

proof fn lemma_sq_distinct(cur: Location, dx: int, dy: int, i: int, j: int)
    requires
        is_unit(dx, dy),
        i != j,
        in_bounds(cur.x + i * dx, cur.y + i * dy),
        in_bounds(cur.x + j * dx, cur.y + j * dy),
    ensures
        ray_sq(cur, dx, dy, i) != ray_sq(cur, dx, dy, j),
{
    if dx != 0 {
        assert(i * dx != j * dx) by (nonlinear_arith)
            requires dx != 0, i != j;
    } else {
        assert(i * dy != j * dy) by (nonlinear_arith)
            requires dy != 0, i != j;
    }
}

/// Along one ray that runs over empty squares to an occupied one at step `k`, the
/// occupied square is a destination exactly when it holds the other color, and no
/// square past it is.
proof fn lemma_ray_first_piece(
    b: Seq<Option<Piece>>,
    color: Color,
    cur: Location,
    dx: int,
    dy: int,
    steps: nat,
    k: int,
)
    requires
        b.len() == 64,
        cur.wf(),
        is_unit(dx, dy),
        1 <= k <= steps,
        in_bounds(cur.x + k * dx, cur.y + k * dy),
        forall|j: int| 1 <= j < k ==> b[#[trigger] ray_sq(cur, dx, dy, j).index()] is None,
        b[ray_sq(cur, dx, dy, k).index()] is Some,
    ensures
        ray_moves(b, color, cur, dx, dy, steps).contains(ray_sq(cur, dx, dy, k)) <==> b[ray_sq(
            cur,
            dx,
            dy,
            k,
        ).index()]->Some_0.color != color,
        forall|j: int|
            j > k && in_bounds(cur.x + j * dx, cur.y + j * dy) ==> !ray_moves(
                b,
                color,
                cur,
                dx,
                dy,
                steps,
            ).contains(#[trigger] ray_sq(cur, dx, dy, j)),
    decreases k,
{
    assert(in_bounds(cur.x + dx, cur.y + dy)) by (nonlinear_arith)
        requires
            -1 <= dx <= 1, -1 <= dy <= 1, 1 <= k,
            0 <= cur.x < 8, 0 <= cur.y < 8,
            0 <= cur.x + k * dx < 8, 0 <= cur.y + k * dy < 8;
    let n = step_from(cur, dx, dy);
    assert(ray_sq(cur, dx, dy, 1) == n);
    let s = ray_moves(b, color, cur, dx, dy, steps);
    if k == 1 {
        assert forall|j: int| j > k && in_bounds(cur.x + j * dx, cur.y + j * dy) implies !s.contains(
            #[trigger] ray_sq(cur, dx, dy, j),
        ) by {
            lemma_sq_distinct(cur, dx, dy, 1, j);
            if s.contains(ray_sq(cur, dx, dy, j)) {
                let i = choose|i: int| 0 <= i < s.len() && s[i] == ray_sq(cur, dx, dy, j);
            }
        }
        if b[n.index()]->Some_0.color != color {
            assert(s[0] == n);
        }
    } else {
        assert(b[ray_sq(cur, dx, dy, 1).index()] is None);
        let rest = ray_moves(b, color, n, dx, dy, (steps - 1) as nat);
        assert(s == seq![n] + rest);
        lemma_sq_shift(cur, dx, dy, k - 1);
        assert forall|j: int| 1 <= j < k - 1 implies b[#[trigger] ray_sq(n, dx, dy, j).index()] is None by {
            lemma_sq_shift(cur, dx, dy, j);
            assert(b[ray_sq(cur, dx, dy, j + 1).index()] is None);
        }
        assert(in_bounds(n.x + (k - 1) * dx, n.y + (k - 1) * dy)) by (nonlinear_arith)
            requires n.x == cur.x + dx, n.y == cur.y + dy, 0 <= cur.x + k * dx < 8, 0 <= cur.y + k * dy < 8;
        lemma_ray_first_piece(b, color, n, dx, dy, (steps - 1) as nat, k - 1);
        lemma_sq_distinct(cur, dx, dy, 1, k);
        let target = ray_sq(cur, dx, dy, k);
        if s.contains(target) {
            let i = choose|i: int| 0 <= i < s.len() && s[i] == target;
            assert(rest[i - 1] == target);
            assert(rest.contains(target));
        }
        if rest.contains(target) {
            let i = choose|i: int| 0 <= i < rest.len() && rest[i] == target;
            assert(s[i + 1] == target);
        }
        assert forall|j: int| j > k && in_bounds(cur.x + j * dx, cur.y + j * dy) implies !s.contains(
            #[trigger] ray_sq(cur, dx, dy, j),
        ) by {
            lemma_sq_distinct(cur, dx, dy, 1, j);
            lemma_sq_shift(cur, dx, dy, j - 1);
            assert(in_bounds(n.x + (j - 1) * dx, n.y + (j - 1) * dy)) by (nonlinear_arith)
                requires n.x == cur.x + dx, n.y == cur.y + dy, 0 <= cur.x + j * dx < 8, 0 <= cur.y + j * dy < 8;
            assert(!rest.contains(ray_sq(n, dx, dy, j - 1)));
            if s.contains(ray_sq(cur, dx, dy, j)) {
                let i = choose|i: int| 0 <= i < s.len() && s[i] == ray_sq(cur, dx, dy, j);
                assert(rest[i - 1] == ray_sq(cur, dx, dy, j));
            }
        }
    }
}

/// A rook, bishop or queen, looking along one of its rays to the first occupied
/// square: that square is among its destinations exactly when it holds a piece
/// of the other color, and no square past it on the ray is.
pub proof fn lemma_slider_stops_at_first_piece(
    p: Piece,
    b: Seq<Option<Piece>>,
    from: Location,
    r: WalkStrategy,
    k: int,
)
    requires
        is_slider(p.tpe),
        b.len() == 64,
        from.wf(),
        rules_of(p, from).contains(r),
        1 <= k,
        in_bounds(from.x + k * r.dx, from.y + k * r.dy),
        forall|j: int| 1 <= j < k ==> b[#[trigger] ray_sq(from, r.dx as int, r.dy as int, j).index()] is None,
        b[ray_sq(from, r.dx as int, r.dy as int, k).index()] is Some,
    ensures
        legal_destinations(p, b, from).contains(ray_sq(from, r.dx as int, r.dy as int, k))
            <==> b[ray_sq(from, r.dx as int, r.dy as int, k).index()]->Some_0.color != p.color,
        forall|j: int|
            j > k && in_bounds(from.x + j * r.dx, from.y + j * r.dy) ==> !legal_destinations(
                p,
                b,
                from,
            ).contains(#[trigger] ray_sq(from, r.dx as int, r.dy as int, j)),
{
    let rules = rules_of(p, from);
    let dx = r.dx as int;
    let dy = r.dy as int;
    assert(forall|i: int| 0 <= i < rules.len() ==> is_unit(rules[i].dx as int, rules[i].dy as int)
        && #[trigger] rules[i].max_steps == 7);
    assert(forall|i: int, j: int| 0 <= i < rules.len() && 0 <= j < rules.len() && i != j
        ==> !(#[trigger] rules[i].dx == #[trigger] rules[j].dx && rules[i].dy == rules[j].dy));
    let i0 = choose|i: int| 0 <= i < rules.len() && rules[i] == r;
    assert(k <= 7) by (nonlinear_arith)
        requires is_unit(dx, dy), 1 <= k, 0 <= from.x < 8, 0 <= from.y < 8,
            0 <= from.x + k * dx < 8, 0 <= from.y + k * dy < 8;
    lemma_ray_first_piece(b, p.color, from, dx, dy, 7, k);
    assert forall|j: int| 1 <= j && in_bounds(from.x + j * dx, from.y + j * dy) implies
        (legal_destinations(p, b, from).contains(#[trigger] ray_sq(from, dx, dy, j))
            <==> ray_of(b, p.color, from, r).contains(ray_sq(from, dx, dy, j))) by {
        let e = ray_sq(from, dx, dy, j);
        lemma_moves_over_contains(b, p.color, from, rules, e);
        lemma_sq_sign(from, dx, dy, j);
        if legal_destinations(p, b, from).contains(e) {
            let i = choose|i: int| 0 <= i < rules.len() && #[trigger] ray_of(b, p.color, from, rules[i]).contains(e);
            lemma_ray_ahead(b, p.color, from, rules[i].dx as int, rules[i].dy as int, 7);
            assert(rules[i].dx == r.dx && rules[i].dy == r.dy);
            assert(i == i0);
        }
        if ray_of(b, p.color, from, r).contains(e) {
            assert(ray_of(b, p.color, from, rules[i0]).contains(e));
        }
    }
}

} // verus!
