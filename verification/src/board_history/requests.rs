//! The requests of the actix front end: query strings of `key=value`
//! pairs, the moves a clicked piece may make, the move a player sends, and
//! the session object returned to the page.
use vstd::prelude::*;

verus! {

use crate::board_history::board::{
    Chessboard,
    ChessboardView,
    PositionView,
    after_make,
    can_play,
    listing,
    start_position,
    WHITE,
    BLACK,
};
use crate::board_history::mask_move::{Move, file_of, rank_of};
use crate::board_history::movegen::{
    get_bishop_moves,
    get_king_moves,
    get_knight_moves,
    get_pawn_moves,
    get_queen_moves,
    get_rook_moves,
    bishop_moves,
    knight_moves,
    pawn_moves,
    queen_moves,
    rook_moves,
    double_steps_empty,
    mask_views,
};

/// The text split at every `sep`: the pieces between separators, in order,
/// empty ones included (one piece when `sep` does not occur).
pub open spec fn split_parts(s: Seq<char>, sep: char) -> Seq<Seq<char>> {
    split_scan(s, sep, s.len() as int).0.push(split_scan(s, sep, s.len() as int).1)
}

/// After the first `n` characters: the finished pieces and the open one.
pub open spec fn split_scan(s: Seq<char>, sep: char, n: int) -> (Seq<Seq<char>>, Seq<char>)
    decreases n,
{
    if n <= 0 {
        (Seq::empty(), Seq::empty())
    } else {
        let (done, open) = split_scan(s, sep, n - 1);
        if s[n - 1] == sep {
            (done.push(open), Seq::empty())
        } else {
            (done, open.push(s[n - 1]))
        }
    }
}

/// The texts of strings.
pub open spec fn texts(v: Seq<String>) -> Seq<Seq<char>> {
    v.map_values(|s: String| s@)
}

/// Splits `s` at every `sep`, as `str::split` does.
pub fn split_on(s: &str, sep: char) -> (r: Vec<String>)
    ensures
        texts(r@) == split_parts(s@, sep),
{
    let n = s.unicode_len();
    let mut parts: Vec<String> = Vec::new();
    let mut start: usize = 0;
    let mut i: usize = 0;
    while i < n
        invariant
            n == s@.len(),
            start <= i <= n,
            split_scan(s@, sep, i as int) == (texts(parts@), s@.subrange(start as int, i as int)),
        decreases n - i,
    {
        let c = s.get_char(i);
        if c == sep {
            let piece = s.substring_char(start, i).to_owned();
            let ghost before = parts@;
            parts.push(piece);
            assert(texts(parts@) =~= texts(before).push(s@.subrange(start as int, i as int)));
            start = i + 1;
            assert(s@.subrange(start as int, (i + 1) as int) =~= Seq::<char>::empty());
        } else {
            assert(s@.subrange(start as int, (i + 1) as int) =~= s@.subrange(start as int, i as int).push(c));
        }
        i = i + 1;
    }
    let last = s.substring_char(start, n).to_owned();
    let ghost before = parts@;
    parts.push(last);
    assert(texts(parts@) =~= texts(before).push(s@.subrange(start as int, n as int)));
    parts
}

/// The key and value of a `key=value` part: the text before the first `=`
/// and the text after it up to the next `=`; `None` without an `=`.
pub open spec fn key_value_of(part: Seq<char>) -> Option<(Seq<char>, Seq<char>)> {
    let pieces = split_parts(part, '=');
    if pieces.len() < 2 {
        None
    } else {
        Some((pieces[0], pieces[1]))
    }
}

/// The key and value of a `key=value` part.
pub fn key_value(part: &str) -> (r: Option<(String, String)>)
    ensures
        r matches Some(kv) ==> key_value_of(part@) == Some((kv.0@, kv.1@)),
        r is None <==> key_value_of(part@) is None,
{
    let pieces = split_on(part, '=');
    if pieces.len() < 2 {
        None
    } else {
        let key = pieces[0].clone();
        let value = pieces[1].clone();
        assert(texts(pieces@)[0] == pieces@[0]@);
        assert(texts(pieces@)[1] == pieces@[1]@);
        Some((key, value))
    }
}

/// Whether every character is an ASCII digit.
pub open spec fn all_digits(s: Seq<char>) -> bool {
    forall|i: int| 0 <= i < s.len() ==> '0' <= #[trigger] s[i] <= '9'
}

/// The number the digits of `s` write.
pub open spec fn digits_value(s: Seq<char>) -> int
    decreases s.len(),
{
    if s.len() == 0 {
        0
    } else {
        digits_value(s.drop_last()) * 10 + (s.last() as int - '0' as int)
    }
}

/// What `str::parse::<u8>` gives: an optional `+` followed by one or more
/// ASCII digits whose value is at most 255; `None` for anything else.
pub open spec fn parse_u8_spec(s: Seq<char>) -> Option<u8> {
    let body = if s.len() > 0 && s[0] == '+' {
        s.drop_first()
    } else {
        s
    };
    if body.len() > 0 && all_digits(body) && digits_value(body) <= 255 {
        Some(digits_value(body) as u8)
    } else {
        None
    }
}

proof fn lemma_digits_value_nonneg(s: Seq<char>)
    requires
        all_digits(s),
    ensures
        digits_value(s) >= 0,
    decreases s.len(),
{
    if s.len() > 0 {
        assert(all_digits(s.drop_last()));
        lemma_digits_value_nonneg(s.drop_last());
    }
}

/// Parses a decimal `u8` as `str::parse::<u8>` does.
pub fn parse_u8(s: &str) -> (r: Option<u8>)
    ensures
        r == parse_u8_spec(s@),
{
    let n = s.unicode_len();
    let mut i: usize = 0;
    if n > 0 && s.get_char(0) == '+' {
        i = 1;
    }
    let ghost body = if s@.len() > 0 && s@[0] == '+' {
        s@.drop_first()
    } else {
        s@
    };
    assert(body =~= s@.subrange(i as int, n as int));
    if i == n {
        return None;
    }
    let start = i;
    let mut value: u32 = 0;
    while i < n
        invariant
            n == s@.len(),
            start <= i <= n,
            start < n,
            body == s@.subrange(start as int, n as int),
            body == (if s@.len() > 0 && s@[0] == '+' {
                s@.drop_first()
            } else {
                s@
            }),
            all_digits(s@.subrange(start as int, i as int)),
            value as int == digits_value(s@.subrange(start as int, i as int)),
            value <= 255,
        decreases n - i,
    {
        let c = s.get_char(i);
        assert(s@.subrange(start as int, (i + 1) as int).drop_last() =~= s@.subrange(start as int, i as int));
        if c < '0' || c > '9' {
            assert(!all_digits(body)) by {
                assert(body[i - start] == c);
            }
            return None;
        }
        let digit = (c as u32) - ('0' as u32);
        value = value * 10 + digit;
        assert(all_digits(s@.subrange(start as int, (i + 1) as int)));
        if value > 255 {
            proof {
                let pre = s@.subrange(start as int, (i + 1) as int);
                if all_digits(body) {
                    lemma_digits_prefix_bound(body, (i + 1 - start) as int);
                    assert(body.subrange(0, (i + 1 - start) as int) =~= pre);
                }
            }
            return None;
        }
        i = i + 1;
    }
    assert(s@.subrange(start as int, n as int) == body);
    Some(value as u8)
}

/// A longer run of digits never writes a smaller number than its prefix.
proof fn lemma_digits_prefix_bound(s: Seq<char>, k: int)
    requires
        all_digits(s),
        0 <= k <= s.len(),
    ensures
        digits_value(s) >= digits_value(s.subrange(0, k)),
    decreases s.len() - k,
{
    if k < s.len() {
        lemma_digits_prefix_bound(s, k + 1);
        let a = s.subrange(0, k);
        let b = s.subrange(0, k + 1);
        assert(b.drop_last() =~= a);
        assert(all_digits(a));
        lemma_digits_value_nonneg(a);
        assert(digits_value(b) == digits_value(a) * 10 + (b.last() as int - '0' as int));
    } else {
        assert(s.subrange(0, k) =~= s);
    }
}


/// Whether a string holds exactly the text of `lit`.
fn text_is(s: &String, lit: &str) -> (r: bool)
    ensures
        r == (s@ == lit@),
{
    *s == String::from_str(lit)
}

/// A coordinate that was not given.
pub const INVALID_MOVE_VAL: u8 = 8;

/// What a query for a piece's moves asks: a square and a piece name, with
/// an unknown key refused and a part without `=` or a bad number failing.
pub ghost enum PieceQueryView {
    Fields { x: u8, y: u8, piece: Seq<char> },
    UnknownKey,
    Malformed,
}

/// The parsed query for a piece's moves.
pub enum PieceQuery {
    Fields { x: u8, y: u8, piece: String },
    UnknownKey,
    Malformed,
}

impl View for PieceQuery {
    type V = PieceQueryView;

    closed spec fn view(&self) -> PieceQueryView {
        match self {
            PieceQuery::Fields { x, y, piece } => PieceQueryView::Fields { x: *x, y: *y, piece: piece@ },
            PieceQuery::UnknownKey => PieceQueryView::UnknownKey,
            PieceQuery::Malformed => PieceQueryView::Malformed,
        }
    }
}

/// The piece query read from part `k` on, with the fields read so far:
/// `x` and `y` take numbers, `piece` any text; a later key overrides an
/// earlier one; reading stops at the first unknown key or malformed part.
pub open spec fn piece_query_from(parts: Seq<Seq<char>>, k: int, x: u8, y: u8, piece: Seq<char>) -> PieceQueryView
    decreases parts.len() - k,
{
    if k < 0 || k >= parts.len() {
        PieceQueryView::Fields { x, y, piece }
    } else {
        match key_value_of(parts[k]) {
            None => PieceQueryView::Malformed,
            Some((key, value)) => if key == "x"@ {
                match parse_u8_spec(value) {
                    Some(v) => piece_query_from(parts, k + 1, v, y, piece),
                    None => PieceQueryView::Malformed,
                }
            } else if key == "y"@ {
                match parse_u8_spec(value) {
                    Some(v) => piece_query_from(parts, k + 1, x, v, piece),
                    None => PieceQueryView::Malformed,
                }
            } else if key == "piece"@ {
                piece_query_from(parts, k + 1, x, y, value)
            } else {
                PieceQueryView::UnknownKey
            },
        }
    }
}

/// The piece query of a query string (`&`-separated parts); a coordinate
/// not given is 8.
pub open spec fn piece_query_spec(query: Seq<char>) -> PieceQueryView {
    piece_query_from(split_parts(query, '&'), 0, 8, 8, Seq::empty())
}

/// Reads the query for a piece's moves.
pub fn parse_piece_query(query: &str) -> (r: PieceQuery)
    ensures
        r@ == piece_query_spec(query@),
{
    let parts = split_on(query, '&');
    let ghost ps = texts(parts@);
    let mut x: u8 = INVALID_MOVE_VAL;
    let mut y: u8 = INVALID_MOVE_VAL;
    let mut piece = String::new();
    let mut k: usize = 0;
    while k < parts.len()
        invariant
            k <= parts.len(),
            ps == texts(parts@),
            ps == split_parts(query@, '&'),
            piece_query_spec(query@) == piece_query_from(ps, k as int, x, y, piece@),
        decreases parts.len() - k,
    {
        assert(ps[k as int] == parts@[k as int]@);
        match key_value(parts[k].as_str()) {
            None => {
                return PieceQuery::Malformed;
            },
            Some((key, value)) => {
                if text_is(&key, "x") {
                    match parse_u8(value.as_str()) {
                        Some(v) => {
                            x = v;
                        },
                        None => {
                            return PieceQuery::Malformed;
                        },
                    }
                } else if text_is(&key, "y") {
                    match parse_u8(value.as_str()) {
                        Some(v) => {
                            y = v;
                        },
                        None => {
                            return PieceQuery::Malformed;
                        },
                    }
                } else if text_is(&key, "piece") {
                    piece = value;
                } else {
                    return PieceQuery::UnknownKey;
                }
            },
        }
        k = k + 1;
    }
    PieceQuery::Fields { x, y, piece }
}

/// The generated moves for a piece name (`white_pawn` .. `black_king`);
/// `None` for any other name.
pub open spec fn moves_for_piece(p: PositionView, piece: Seq<char>) -> Option<Seq<(u64, u64)>> {
    if piece == "white_pawn"@ {
        Some(pawn_moves(p, WHITE))
    } else if piece == "white_knight"@ {
        Some(knight_moves(p, WHITE))
    } else if piece == "white_bishop"@ {
        Some(bishop_moves(p, WHITE, None))
    } else if piece == "white_rook"@ {
        Some(rook_moves(p, WHITE, None))
    } else if piece == "white_queen"@ {
        Some(queen_moves(p, WHITE))
    } else if piece == "white_king"@ {
        Some(Seq::empty())
    } else if piece == "black_pawn"@ {
        Some(pawn_moves(p, BLACK))
    } else if piece == "black_knight"@ {
        Some(knight_moves(p, BLACK))
    } else if piece == "black_bishop"@ {
        Some(bishop_moves(p, BLACK, None))
    } else if piece == "black_rook"@ {
        Some(rook_moves(p, BLACK, None))
    } else if piece == "black_queen"@ {
        Some(queen_moves(p, BLACK))
    } else if piece == "black_king"@ {
        Some(Seq::empty())
    } else {
        None
    }
}

/// Whether a move leaves the square on file `x` and rank `y`.
pub open spec fn leaves(mv: (u64, u64), x: u8, y: u8) -> bool {
    file_of(mv.0) == x && rank_of(mv.0) == y
}

pub open spec fn leaves_fn(x: u8, y: u8) -> spec_fn((u64, u64)) -> bool {
    |mv: (u64, u64)| leaves(mv, x, y)
}

/// The moves of the named piece's generator that leave (x, y), in their
/// order; none for an unknown name.
pub open spec fn requested_moves_spec(p: PositionView, x: u8, y: u8, piece: Seq<char>) -> Seq<(u64, u64)> {
    match moves_for_piece(p, piece) {
        Some(all) => all.filter(leaves_fn(x, y)),
        None => Seq::empty(),
    }
}

/// The moves of `moves` that leave (x, y), in order.
fn keep_leaving(moves: &Vec<Move>, x: u8, y: u8) -> (r: Vec<Move>)
    ensures
        mask_views(r@) == mask_views(moves@).filter(leaves_fn(x, y)),
{
    let mut out: Vec<Move> = Vec::new();
    let mut i: usize = 0;
    while i < moves.len()
        invariant
            i <= moves.len(),
            mask_views(out@) == mask_views(moves@.take(i as int)).filter(leaves_fn(x, y)),
        decreases moves.len() - i,
    {
        let mv = moves[i];
        proof {
            assert(moves@.take(i + 1) =~= moves@.take(i as int).push(mv));
            assert(mask_views(moves@.take(i + 1)) =~= mask_views(moves@.take(i as int)).push(mv@));
            mask_views(moves@.take(i as int)).lemma_filter_push(mv@, leaves_fn(x, y));
        }
        if mv.get_from_x() == x && mv.get_from_y() == y {
            let ghost before = out@;
            out.push(mv);
            assert(mask_views(out@) =~= mask_views(before).push(mv@));
        }
        i = i + 1;
    }
    assert(moves@.take(moves@.len() as int) =~= moves@);
    out
}

/// The moves the named piece may make from (x, y): the generator of the
/// piece's kind and side, kept to the moves leaving (x, y). Pawn generation
/// never ends on a board whose double-step masks have a square, so such
/// boards are excluded for pawn names.
pub fn requested_moves(board: &Chessboard, x: u8, y: u8, piece: &str) -> (r: Vec<Move>)
    requires
        piece@ == "white_pawn"@ ==> double_steps_empty(board@.current, WHITE),
        piece@ == "black_pawn"@ ==> double_steps_empty(board@.current, BLACK),
    ensures
        mask_views(r@) == requested_moves_spec(board@.current, x, y, piece@),
{
    let name = String::from_str(piece);
    let mut generated: Vec<Move> = Vec::new();
    if text_is(&name, "white_pawn") {
        get_pawn_moves(board, WHITE, &mut generated);
    } else if text_is(&name, "white_knight") {
        get_knight_moves(board, WHITE, &mut generated);
    } else if text_is(&name, "white_bishop") {
        get_bishop_moves(board, WHITE, &mut generated, None);
    } else if text_is(&name, "white_rook") {
        get_rook_moves(board, WHITE, &mut generated, None);
    } else if text_is(&name, "white_queen") {
        get_queen_moves(board, WHITE, &mut generated);
    } else if text_is(&name, "white_king") {
        get_king_moves(board, WHITE, &mut generated);
    } else if text_is(&name, "black_pawn") {
        get_pawn_moves(board, BLACK, &mut generated);
    } else if text_is(&name, "black_knight") {
        get_knight_moves(board, BLACK, &mut generated);
    } else if text_is(&name, "black_bishop") {
        get_bishop_moves(board, BLACK, &mut generated, None);
    } else if text_is(&name, "black_rook") {
        get_rook_moves(board, BLACK, &mut generated, None);
    } else if text_is(&name, "black_queen") {
        get_queen_moves(board, BLACK, &mut generated);
    } else if text_is(&name, "black_king") {
        get_king_moves(board, BLACK, &mut generated);
    }
    proof {
        if moves_for_piece(board@.current, piece@) is None {
            assert(mask_views(generated@) =~= Seq::empty());
        } else {
            assert(mask_views(generated@) =~= Seq::<(u64, u64)>::empty() + moves_for_piece(
                board@.current,
                piece@,
            ).unwrap());
        }
    }
    keep_leaving(&generated, x, y)
}

/// The fields of a move request (a coordinate not given is 8), or `None`
/// when a part has no `=` or a coordinate is not a number. Unknown keys are
/// skipped.
pub open spec fn move_query_from(
    parts: Seq<Seq<char>>,
    k: int,
    f: (u8, u8, u8, u8, Seq<char>),
) -> Option<(u8, u8, u8, u8, Seq<char>)>
    decreases parts.len() - k,
{
    if k < 0 || k >= parts.len() {
        Some(f)
    } else {
        match key_value_of(parts[k]) {
            None => None,
            Some((key, value)) => if key == "from_x"@ {
                match parse_u8_spec(value) {
                    Some(v) => move_query_from(parts, k + 1, (v, f.1, f.2, f.3, f.4)),
                    None => None,
                }
            } else if key == "from_y"@ {
                match parse_u8_spec(value) {
                    Some(v) => move_query_from(parts, k + 1, (f.0, v, f.2, f.3, f.4)),
                    None => None,
                }
            } else if key == "to_x"@ {
                match parse_u8_spec(value) {
                    Some(v) => move_query_from(parts, k + 1, (f.0, f.1, v, f.3, f.4)),
                    None => None,
                }
            } else if key == "to_y"@ {
                match parse_u8_spec(value) {
                    Some(v) => move_query_from(parts, k + 1, (f.0, f.1, f.2, v, f.4)),
                    None => None,
                }
            } else if key == "piece"@ {
                move_query_from(parts, k + 1, (f.0, f.1, f.2, f.3, value))
            } else {
                move_query_from(parts, k + 1, f)
            },
        }
    }
}

/// The move request of a query string.
pub open spec fn move_query_spec(query: Seq<char>) -> Option<(u8, u8, u8, u8, Seq<char>)> {
    move_query_from(split_parts(query, '&'), 0, (8, 8, 8, 8, Seq::empty()))
}

/// Reads a move request: `from_x`, `from_y`, `to_x`, `to_y` and `piece`.
pub fn parse_move_query(query: &str) -> (r: Option<(u8, u8, u8, u8, String)>)
    ensures
        r matches Some(f) ==> move_query_spec(query@) == Some((f.0, f.1, f.2, f.3, f.4@)),
        r is None <==> move_query_spec(query@) is None,
{
    let parts = split_on(query, '&');
    let ghost ps = texts(parts@);
    let mut from_x: u8 = INVALID_MOVE_VAL;
    let mut from_y: u8 = INVALID_MOVE_VAL;
    let mut to_x: u8 = INVALID_MOVE_VAL;
    let mut to_y: u8 = INVALID_MOVE_VAL;
    let mut piece = String::new();
    let mut k: usize = 0;
    while k < parts.len()
        invariant
            k <= parts.len(),
            ps == texts(parts@),
            ps == split_parts(query@, '&'),
            move_query_spec(query@) == move_query_from(ps, k as int, (from_x, from_y, to_x, to_y, piece@)),
        decreases parts.len() - k,
    {
        assert(ps[k as int] == parts@[k as int]@);
        match key_value(parts[k].as_str()) {
            None => {
                return None;
            },
            Some((key, value)) => {
                if text_is(&key, "from_x") {
                    match parse_u8(value.as_str()) {
                        Some(v) => {
                            from_x = v;
                        },
                        None => {
                            return None;
                        },
                    }
                } else if text_is(&key, "from_y") {
                    match parse_u8(value.as_str()) {
                        Some(v) => {
                            from_y = v;
                        },
                        None => {
                            return None;
                        },
                    }
                } else if text_is(&key, "to_x") {
                    match parse_u8(value.as_str()) {
                        Some(v) => {
                            to_x = v;
                        },
                        None => {
                            return None;
                        },
                    }
                } else if text_is(&key, "to_y") {
                    match parse_u8(value.as_str()) {
                        Some(v) => {
                            to_y = v;
                        },
                        None => {
                            return None;
                        },
                    }
                } else if text_is(&key, "piece") {
                    piece = value;
                }
            },
        }
        k = k + 1;
    }
    Some((from_x, from_y, to_x, to_y, piece))
}

/// The text of a decimal digit.
pub open spec fn digit_text(d: int) -> Seq<char> {
    if d == 0 {
        "0"@
    } else if d == 1 {
        "1"@
    } else if d == 2 {
        "2"@
    } else if d == 3 {
        "3"@
    } else if d == 4 {
        "4"@
    } else if d == 5 {
        "5"@
    } else if d == 6 {
        "6"@
    } else if d == 7 {
        "7"@
    } else if d == 8 {
        "8"@
    } else {
        "9"@
    }
}

/// The decimal text of a natural number, without leading zeros.
pub open spec fn decimal(n: nat) -> Seq<char>
    decreases n,
{
    if n < 10 {
        digit_text(n as int)
    } else {
        decimal(n / 10) + digit_text((n % 10) as int)
    }
}

/// The decimal text of an `i8`, with a minus sign when negative.
pub open spec fn i8_text(v: i8) -> Seq<char> {
    if v < 0 {
        "-"@ + decimal((-v) as nat)
    } else {
        decimal(v as nat)
    }
}

pub(crate) fn digit_str(d: u32) -> (r: &'static str)
    requires
        d < 10,
    ensures
        r@ == digit_text(d as int),
{
    if d == 0 {
        "0"
    } else if d == 1 {
        "1"
    } else if d == 2 {
        "2"
    } else if d == 3 {
        "3"
    } else if d == 4 {
        "4"
    } else if d == 5 {
        "5"
    } else if d == 6 {
        "6"
    } else if d == 7 {
        "7"
    } else if d == 8 {
        "8"
    } else {
        "9"
    }
}

/// The decimal text of `v`, as `to_string` writes it.
pub fn i8_to_text(v: i8) -> (r: String)
    ensures
        r@ == i8_text(v),
{
    let mut s = String::new();
    let a: u32 = if v < 0 {
        s.append("-");
        (-(v as i32)) as u32
    } else {
        v as u32
    };
    if a >= 100 {
        s.append(digit_str(a / 100));
        s.append(digit_str((a / 10) % 10));
        s.append(digit_str(a % 10));
        assert(decimal(a as nat) == decimal((a / 10) as nat) + digit_text((a % 10) as int));
        assert(decimal((a / 10) as nat) == decimal((a / 100) as nat) + digit_text(((a / 10) % 10) as int));
    } else if a >= 10 {
        s.append(digit_str(a / 10));
        s.append(digit_str(a % 10));
        assert(decimal(a as nat) == decimal((a / 10) as nat) + digit_text((a % 10) as int));
    } else {
        s.append(digit_str(a));
    }
    assert(s@ =~= i8_text(v));
    s
}

/// A player's game on the history board: its identifier, the board, the
/// side to move (+1 or -1) and the colors of player and opponent.
pub struct Session {
    id: String,
    board: Chessboard,
    turn: i8,
    user_color: i8,
    opponent_color: i8,
}

/// The content of a session.
pub ghost struct SessionView {
    pub id: Seq<char>,
    pub board: ChessboardView,
    pub turn: i8,
    pub user_color: i8,
    pub opponent_color: i8,
}

impl View for Session {
    type V = SessionView;

    closed spec fn view(&self) -> SessionView {
        SessionView {
            id: self.id@,
            board: self.board@,
            turn: self.turn,
            user_color: self.user_color,
            opponent_color: self.opponent_color,
        }
    }
}

/// The session object sent to the page: the board listing and the turn,
/// opponent, user and id fields.
pub open spec fn session_object_spec(s: SessionView) -> Seq<char> {
    let opponent: i8 = if s.user_color == WHITE {
        BLACK
    } else {
        WHITE
    };
    "{\"board\":"@ + listing(s.board.current) + ",\"turn\":"@ + i8_text(s.turn) + ",\"opponent\":\""@
        + i8_text(opponent) + "\",\"user\":\""@ + i8_text(s.user_color) + "\",\"session_id\":\""@ + s.id
        + "\"}"@
}

/// Whether a requested move can be made: its squares are on the board, a
/// piece stands on its origin, and the turn can be passed.
pub open spec fn move_request_ok(s: SessionView, f: (u8, u8, u8, u8, Seq<char>)) -> bool {
    &&& f.0 + f.1 * 8 < 64
    &&& f.2 + f.3 * 8 < 64
    &&& can_play(
        s.board.current,
        (1u64 << ((f.0 + f.1 * 8) as u64), 1u64 << ((f.2 + f.3 * 8) as u64)),
    )
    &&& s.turn != i8::MIN
}

/// The session after a move request.
pub open spec fn after_request(s: SessionView, f: (u8, u8, u8, u8, Seq<char>)) -> SessionView {
    SessionView {
        board: after_make(
            s.board,
            (1u64 << ((f.0 + f.1 * 8) as u64), 1u64 << ((f.2 + f.3 * 8) as u64)),
        ),
        turn: (-s.turn) as i8,
        ..s
    }
}

impl Session {
    pub fn new(id: String, board: Chessboard, turn: i8, user_color: i8, opponent_color: i8) -> (r: Session)
        ensures
            r@ == (SessionView { id: id@, board: board@, turn, user_color, opponent_color }),
    {
        Session { id, board, turn, user_color, opponent_color }
    }

    pub fn get_id(&self) -> (r: String)
        ensures
            r@ == self@.id,
    {
        self.id.clone()
    }

    pub fn get_board_state(&self) -> (r: Chessboard)
        ensures
            r@ == self@.board,
    {
        self.board.clone()
    }

    pub fn get_turn(&self) -> (r: i8)
        ensures
            r == self@.turn,
    {
        self.turn
    }

    pub fn get_opponent_color(&self) -> (r: i8)
        ensures
            r == self@.opponent_color,
    {
        self.opponent_color
    }

    pub fn get_user_color(&self) -> (r: i8)
        ensures
            r == self@.user_color,
    {
        self.user_color
    }

    /// Plays `mv` on the board and passes the turn to the other side.
    pub fn make_move(&mut self, mv: Move)
        requires
            can_play(old(self)@.board.current, mv@),
            old(self)@.turn != i8::MIN,
        ensures
            final(self)@ == (SessionView {
                board: after_make(old(self)@.board, mv@),
                turn: (-old(self)@.turn) as i8,
                ..old(self)@
            }),
    {
        self.board.make_move(mv);
        self.turn = -self.turn;
    }

    /// The moves the named piece may make from (x, y) on the session's board.
    pub fn possible_moves(&self, x: u8, y: u8, piece: &str) -> (r: Vec<Move>)
        requires
            piece@ == "white_pawn"@ ==> double_steps_empty(self@.board.current, WHITE),
            piece@ == "black_pawn"@ ==> double_steps_empty(self@.board.current, BLACK),
        ensures
            mask_views(r@) == requested_moves_spec(self@.board.current, x, y, piece@),
    {
        requested_moves(&self.board, x, y, piece)
    }

    /// Plays the move a query string asks for, from (`from_x`, `from_y`) to
    /// (`to_x`, `to_y`). `false`, with the session unchanged, when the query
    /// is malformed, a square is off the board, no piece stands on the
    /// origin or the turn cannot be passed.
    pub fn apply_move_query(&mut self, query: &str) -> (r: bool)
        ensures
            r <==> (move_query_spec(query@) matches Some(f) && move_request_ok(old(self)@, f)),
            r ==> final(self)@ == after_request(old(self)@, move_query_spec(query@).unwrap()),
            !r ==> final(self)@ == old(self)@,
    {
        match parse_move_query(query) {
            None => false,
            Some((from_x, from_y, to_x, to_y, _piece)) => {
                if (from_x as u32) + (from_y as u32) * 8 >= 64 || (to_x as u32) + (to_y as u32) * 8 >= 64 {
                    return false;
                }
                let mv = Move::new_from_coordinates(from_x, from_y, to_x, to_y);
                let from = mv.get_from_mask();
                proof {
                    crate::bits::lemma_low_index_single((from_x + from_y * 8) as u64);
                }
                let square = from.trailing_zeros() as u64;
                let (piece, _color) = self.board.get_piece_at(square);
                let occupied = (self.board.get_white_pieces() | self.board.get_black_pieces()) & from;
                if piece == crate::constants::EMPTY || occupied == 0 || self.turn == i8::MIN {
                    return false;
                }
                self.make_move(mv);
                true
            },
        }
    }

    /// The session object sent to the page.
    pub fn session_object(&self) -> (r: String)
        ensures
            r@ == session_object_spec(self@),
    {
        let mut board = self.board.clone();
        let listing_text = board.convert_to_json();
        let opponent: i8 = if self.user_color == WHITE {
            BLACK
        } else {
            WHITE
        };
        let mut s = String::new();
        s.append("{\"board\":");
        s.append(listing_text.as_str());
        s.append(",\"turn\":");
        s.append(i8_to_text(self.turn).as_str());
        s.append(",\"opponent\":\"");
        s.append(i8_to_text(opponent).as_str());
        s.append("\",\"user\":\"");
        s.append(i8_to_text(self.user_color).as_str());
        s.append("\",\"session_id\":\"");
        s.append(self.id.as_str());
        s.append("\"}");
        assert(s@ =~= session_object_spec(self@));
        s
    }
}

/// A fresh session under `id`: the starting position, white (+1) to move,
/// the user playing white against black.
pub fn new_session(id: String) -> (r: Session)
    ensures
        r@ == (SessionView {
            id: id@,
            board: ChessboardView { current: start_position(), history: Seq::empty() },
            turn: 1,
            user_color: WHITE,
            opponent_color: BLACK,
        }),
{
    let mut board = Chessboard::default();
    board.init();
    Session::new(id, board, 1, WHITE, BLACK)
}

} // verus!
