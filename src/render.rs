use vstd::prelude::*;
use vstd::utf8::encode_utf8;

use crate::board::Board;
use crate::piece::{Color, Piece, Type};
use crate::text::join_with;

verus! {

pub open spec fn color_char(c: Color) -> char {
    match c {
        Color::White => 'w',
        Color::Black => 'b',
    }
}

pub open spec fn type_char(t: Type) -> char {
    match t {
        Type::Pawn => 'P',
        Type::Bishop => 'B',
        Type::Knight => 'N',
        Type::Rook => 'R',
        Type::Queen => 'Q',
        Type::King => 'K',
    }
}

/// The code of a cell: empty, or the color letter followed by the type letter.
pub open spec fn cell_code(cell: Option<Piece>) -> Seq<char> {
    match cell {
        None => seq![],
        Some(p) => seq![color_char(p.color), type_char(p.tpe)],
    }
}

/// The code of every cell, in the board's row-major order.
pub open spec fn cell_codes(b: Seq<Option<Piece>>) -> Seq<Seq<char>> {
    b.map_values(|c: Option<Piece>| cell_code(c))
}

/// The text form of a board: its 64 cell codes, comma-separated.
pub open spec fn board_text(b: Seq<Option<Piece>>) -> Seq<char> {
    join_with(cell_codes(b), seq![','])
}

/// Name for what serde_json makes of a string: the JSON string literal for it.
pub uninterp spec fn json_quoted(s: Seq<char>) -> Seq<char>;

/// No character of `s` needs escaping in a JSON string: none is `"`, `\` or
/// below U+0020.
pub open spec fn json_plain(s: Seq<char>) -> bool {
    forall|i: int| 0 <= i < s.len() ==> #[trigger] s[i] != '"' && s[i] != '\\' && s[i] as int >= 0x20
}

/// `s` between double quotes.
pub open spec fn quoted(s: Seq<char>) -> Seq<char> {
    seq!['"'] + s + seq!['"']
}

/// The JSON object that carries a board's text under the key `squares`, given
/// that text already written as a JSON string literal.
pub open spec fn squares_object(quoted: Seq<char>) -> Seq<char> {
    "{\"squares\":"@ + quoted + "}"@
}

pub open spec fn digit_char(d: int) -> char {
    if d == 0 { '0' } else if d == 1 { '1' } else if d == 2 { '2' } else if d == 3 { '3' }
    else if d == 4 { '4' } else if d == 5 { '5' } else if d == 6 { '6' } else if d == 7 { '7' }
    else if d == 8 { '8' } else { '9' }
}

/// The decimal numeral of `n`, without leading zeros.
pub open spec fn decimal(n: nat) -> Seq<char>
    decreases n,
{
    if n < 10 {
        seq![digit_char(n as int)]
    } else {
        decimal(n / 10) + seq![digit_char((n % 10) as int)]
    }
}

/// An HTTP/1.1 response with the given status line text, content type and body;
/// `Content-Length` counts the body's UTF-8 bytes.
pub open spec fn http_text(status: Seq<char>, content_type: Seq<char>, body: Seq<char>) -> Seq<
    char,
> {
    "HTTP/1.1 "@ + status + "\r\nAccess-Control-Allow-Origin: *\r\nContent-Type: "@
        + content_type + "\r\nContent-Length: "@ + decimal(encode_utf8(body).len()) + "\r\n\r\n"@
        + body
}

/// The code of one cell.
pub fn cell_as_str(cell: &Option<Piece>) -> (r: String)
    ensures
        r@ == cell_code(*cell),
{
    proof {
        reveal_strlit("");
        reveal_strlit("w"); reveal_strlit("b");
        reveal_strlit("P"); reveal_strlit("B"); reveal_strlit("N");
        reveal_strlit("R"); reveal_strlit("Q"); reveal_strlit("K");
    }
    match cell {
        None => String::from_str(""),
        Some(p) => {
            let c = match p.color {
                Color::White => "w",
                Color::Black => "b",
            };
            let t = match p.tpe {
                Type::Pawn => "P",
                Type::Bishop => "B",
                Type::Knight => "N",
                Type::Rook => "R",
                Type::Queen => "Q",
                Type::King => "K",
            };
            let mut s = String::from_str(c);
            s.append(t);
            assert(s@ =~= cell_code(*cell));
            s
        },
    }
}

/// The text form of the board, row-major, cell codes separated by commas.
pub fn board_as_str(board: &Board) -> (r: String)
    requires
        board.wf(),
    ensures
        r@ == board_text(board@),
{
    let ghost codes = cell_codes(board@);
    let mut s = String::new();
    let mut i: u8 = 0;
    while i < 64
        invariant
            i <= 64,
            board.wf(),
            codes == cell_codes(board@),
            s@ == join_with(codes.take(i as int), seq![',']),
        decreases 64 - i,
    {
        let at = crate::location::Location { x: i % 8, y: i / 8 };
        let cell = board.get(at);
        let code = cell_as_str(&cell);
        assert(at.index() == i as int);
        assert(code@ == codes[i as int]);
        let ghost before = s@;
        if i > 0 {
            s.append(",");
        }
        s.append(code.as_str());
        proof {
            reveal_strlit(",");
            let t = codes.take(i + 1);
            assert(t.drop_last() =~= codes.take(i as int));
            assert(t.last() == codes[i as int]);
            if i == 0 {
                assert(s@ =~= join_with(t, seq![',']));
            } else {
                assert(s@ =~= before + seq![','] + t.last());
            }
        }
        i = i + 1;
    }
    assert(codes.take(64) =~= codes);
    s
}

/// Relies on serde_json::to_string on a `&str`: it only writes into a `Vec<u8>`,
/// so it always succeeds; it puts the string between double quotes and escapes
/// only `"`, `\` and characters below U+0020, leaving every other character as it is.
#[verifier::external_body]
fn json_string(s: &str) -> (r: Option<String>)
    ensures
        r is Some,
        r matches Some(q) ==> q@ == json_quoted(s@),
        r matches Some(q) ==> (json_plain(s@) ==> q@ == quoted(s@)),
{
    serde_json::to_string(s).ok()
}

/// The JSON object `{"squares":...}` around a string literal already quoted.
pub fn squares_json(quoted: &str) -> (r: String)
    ensures
        r@ == squares_object(quoted@),
{
    let mut s = String::from_str("{\"squares\":");
    s.append(quoted);
    s.append("}");
    s
}

/// The JSON body that carries `squares`: the object `{"squares":...}` with the
/// text as a JSON string.
pub fn response_body(squares: &str) -> (r: String)
    ensures
        r@ == squares_object(json_quoted(squares@)),
        json_plain(squares@) ==> r@ == squares_object(quoted(squares@)),
{
    let q = json_string(squares).unwrap();
    squares_json(q.as_str())
}

proof fn lemma_join_plain(parts: Seq<Seq<char>>, sep: Seq<char>)
    requires
        json_plain(sep),
        forall|i: int| 0 <= i < parts.len() ==> json_plain(#[trigger] parts[i]),
    ensures
        json_plain(join_with(parts, sep)),
    decreases parts.len(),
{
    if parts.len() > 1 {
        lemma_join_plain(parts.drop_last(), sep);
        let a = join_with(parts.drop_last(), sep);
        let l = parts.last();
        assert(json_plain(l));
        assert(join_with(parts, sep) == a + sep + l);
        assert forall|i: int| 0 <= i < (a + sep + l).len() implies #[trigger] (a + sep + l)[i]
            != '"' && (a + sep + l)[i] != '\\' && (a + sep + l)[i] as int >= 0x20 by {
            if i < a.len() {
                assert((a + sep + l)[i] == a[i]);
            } else if i < a.len() + sep.len() {
                assert((a + sep + l)[i] == sep[i - a.len()]);
            } else {
                assert((a + sep + l)[i] == l[i - a.len() - sep.len()]);
            }
        }
    }
}

/// A board's text needs no escaping in JSON: it holds only piece letters and commas.
pub proof fn lemma_board_text_plain(b: Seq<Option<Piece>>)
    ensures
        json_plain(board_text(b)),
{
    let codes = cell_codes(b);
    assert forall|i: int| 0 <= i < codes.len() implies json_plain(#[trigger] codes[i]) by {
        assert(codes[i] == cell_code(b[i]));
    }
    lemma_join_plain(codes, seq![',']);
}

/// The `200 OK` response that carries the board: the JSON object
/// `{"squares":"<board text>"}` as its body.
pub fn board_response(board: &Board) -> (r: String)
    requires
        board.wf(),
    ensures
        r@ == http_text(
            "200 OK"@,
            "application/json"@,
            squares_object(quoted(board_text(board@))),
        ),
{
    let squares = board_as_str(board);
    proof {
        lemma_board_text_plain(board@);
    }
    let body = response_body(squares.as_str());
    success_res(body)
}

fn digit_str(d: usize) -> (r: &'static str)
    requires
        d < 10,
    ensures
        r@ == seq![digit_char(d as int)],
{
    proof {
        reveal_strlit("0"); reveal_strlit("1"); reveal_strlit("2"); reveal_strlit("3");
        reveal_strlit("4"); reveal_strlit("5"); reveal_strlit("6"); reveal_strlit("7");
        reveal_strlit("8"); reveal_strlit("9");
    }
    let r = match d {
        0 => "0",
        1 => "1",
        2 => "2",
        3 => "3",
        4 => "4",
        5 => "5",
        6 => "6",
        7 => "7",
        8 => "8",
        _ => "9",
    };
    assert(r@ =~= seq![digit_char(d as int)]);
    r
}

/// Appends the decimal numeral of `n` to `s`.
pub fn push_decimal(s: &mut String, n: usize)
    ensures
        final(s)@ == old(s)@ + decimal(n as nat),
    decreases n,
{
    if n >= 10 {
        push_decimal(s, n / 10);
    }
    s.append(digit_str(n % 10));
    assert(final(s)@ =~= old(s)@ + decimal(n as nat));
}

fn http_response(status: &str, content_type: &str, body: &str) -> (r: String)
    ensures
        r@ == http_text(status@, content_type@, body@),
{
    let mut s = String::from_str("HTTP/1.1 ");
    s.append(status);
    s.append("\r\nAccess-Control-Allow-Origin: *\r\nContent-Type: ");
    s.append(content_type);
    s.append("\r\nContent-Length: ");
    push_decimal(&mut s, body.as_bytes().len());
    s.append("\r\n\r\n");
    s.append(body);
    assert(s@ =~= http_text(status@, content_type@, body@));
    s
}

/// A `200 OK` response carrying `content` as JSON.
pub fn success_res(content: String) -> (r: String)
    ensures
        r@ == http_text("200 OK"@, "application/json"@, content@),
{
    http_response("200 OK", "application/json", content.as_str())
}

/// A `400 Bad Request` response carrying `err_msg` as plain text.
pub fn bad_request_res(err_msg: String) -> (r: String)
    ensures
        r@ == http_text("400 Bad Request"@, "text/plain"@, err_msg@),
{
    http_response("400 Bad Request", "text/plain", err_msg.as_str())
}

} // verus!
