//! A player's game as the web server keeps it, and the decisions behind its
//! requests: what the client is told of a move, which generated move a
//! request names, and what a move or an engine reply does to the session.
use vstd::prelude::*;

verus! {

use crate::chess_move::{Move, MoveType, from_index_of, to_index_of};
use crate::chessboard::{Chessboard, BoardView, starting_view};
use crate::constants::{WHITE, BLACK, is_color};
use crate::engine::{Engine, engine_ok};
use crate::heuristics::HeuristicParams;
use crate::movegenerator::{
    generate_moves,
    legal_moves,
    en_passant_in_range,
    views,
    playable,
    after_move,
    lemma_legal_playable,
};

broadcast use vstd::seq_lib::group_seq_properties;

/// The kind of a move as the client sees it.
#[derive(Clone, Copy, Debug, PartialEq, Eq, Structural)]
pub enum SpecialMoveHint {
    Normal,
    EnPassant,
    Castling,
}

/// The hint the client receives for a move.
pub open spec fn hint_of(mv: (u16, MoveType)) -> SpecialMoveHint {
    match mv.1 {
        MoveType::EnPassant { .. } => SpecialMoveHint::EnPassant,
        MoveType::Castling { .. } => SpecialMoveHint::Castling,
        _ => SpecialMoveHint::Normal,
    }
}

/// En passant and castling are named as such; every other move is normal.
pub fn move_to_special_move_hint(mv: &Move) -> (r: SpecialMoveHint)
    ensures
        r == hint_of(mv@),
{
    if mv.is_en_passant() {
        SpecialMoveHint::EnPassant
    } else if mv.is_castling() {
        SpecialMoveHint::Castling
    } else {
        SpecialMoveHint::Normal
    }
}

/// A move as the client receives it: the file and rank of both squares and
/// its kind.
#[derive(Clone, Copy, Debug, PartialEq, Eq, Structural)]
pub struct MoveJson {
    pub from_x: u8,
    pub from_y: u8,
    pub to_x: u8,
    pub to_y: u8,
    pub special_move: SpecialMoveHint,
}

/// The client's form of a move.
pub open spec fn json_of(mv: (u16, MoveType)) -> MoveJson {
    MoveJson {
        from_x: (from_index_of(mv.0) % 8) as u8,
        from_y: (from_index_of(mv.0) / 8) as u8,
        to_x: (to_index_of(mv.0) % 8) as u8,
        to_y: (to_index_of(mv.0) / 8) as u8,
        special_move: hint_of(mv),
    }
}

pub open spec fn json_fn() -> spec_fn((u16, MoveType)) -> MoveJson {
    |mv: (u16, MoveType)| json_of(mv)
}

/// Whether a move leaves the square on file `x` and rank `y`.
pub open spec fn starts_on(mv: (u16, MoveType), x: u8, y: u8) -> bool {
    from_index_of(mv.0) % 8 == x && from_index_of(mv.0) / 8 == y
}

pub open spec fn starts_on_fn(x: u8, y: u8) -> spec_fn((u16, MoveType)) -> bool {
    |mv: (u16, MoveType)| starts_on(mv, x, y)
}

/// Whether a move goes between the named squares and, when a hint is given,
/// is of the hinted kind.
pub open spec fn request_matches(
    mv: (u16, MoveType),
    from_x: u8,
    from_y: u8,
    to_x: u8,
    to_y: u8,
    hint: Option<SpecialMoveHint>,
) -> bool {
    &&& starts_on(mv, from_x, from_y)
    &&& to_index_of(mv.0) % 8 == to_x
    &&& to_index_of(mv.0) / 8 == to_y
    &&& (hint matches Some(h) ==> hint_of(mv) == h)
}

/// The client's form of a move.
pub fn move_json(mv: &Move) -> (r: MoveJson)
    ensures
        r == json_of(mv@),
{
    MoveJson {
        from_x: mv.get_from_x(),
        from_y: mv.get_from_y(),
        to_x: mv.get_to_x(),
        to_y: mv.get_to_y(),
        special_move: move_to_special_move_hint(mv),
    }
}

/// The moves of `moves` that leave the square on file `x` and rank `y`, in
/// their order, as the client receives them.
pub fn moves_from_square(moves: &Vec<Move>, x: u8, y: u8) -> (r: Vec<MoveJson>)
    ensures
        r@ == views(moves@).filter(starts_on_fn(x, y)).map_values(json_fn()),
{
    let mut out: Vec<MoveJson> = Vec::new();
    let mut i: usize = 0;
    while i < moves.len()
        invariant
            i <= moves.len(),
            out@ == views(moves@.take(i as int)).filter(starts_on_fn(x, y)).map_values(json_fn()),
        decreases moves.len() - i,
    {
        let mv = moves[i];
        proof {
            assert(moves@.take(i + 1) =~= moves@.take(i as int).push(mv));
            assert(views(moves@.take(i + 1)) =~= views(moves@.take(i as int)).push(mv@));
            views(moves@.take(i as int)).lemma_filter_push(mv@, starts_on_fn(x, y));
        }
        if mv.get_from_x() == x && mv.get_from_y() == y {
            let j = move_json(&mv);
            proof {
                views(moves@.take(i as int)).filter(starts_on_fn(x, y)).lemma_push_map_commute(
                    json_fn(),
                    mv@,
                );
            }
            out.push(j);
        }
        i = i + 1;
    }
    assert(moves@.take(moves@.len() as int) =~= moves@);
    out
}

/// The first move of `moves` between the named squares and of the hinted
/// kind, if any.
pub fn select_move(
    moves: &Vec<Move>,
    from_x: u8,
    from_y: u8,
    to_x: u8,
    to_y: u8,
    hint: Option<SpecialMoveHint>,
) -> (r: Option<Move>)
    ensures
        r is None <==> forall|j: int|
            0 <= j < moves@.len() ==> !request_matches(
                #[trigger] moves@[j]@,
                from_x,
                from_y,
                to_x,
                to_y,
                hint,
            ),
        r matches Some(m) ==> exists|i: int|
            0 <= i < moves@.len() && moves@[i] == m && request_matches(m@, from_x, from_y, to_x, to_y, hint)
                && forall|j: int|
                0 <= j < i ==> !request_matches(#[trigger] moves@[j]@, from_x, from_y, to_x, to_y, hint),
{
    let mut i: usize = 0;
    while i < moves.len()
        invariant
            i <= moves.len(),
            forall|j: int|
                0 <= j < i ==> !request_matches(#[trigger] moves@[j]@, from_x, from_y, to_x, to_y, hint),
        decreases moves.len() - i,
    {
        let mv = moves[i];
        let kind_ok = match hint {
            Some(h) => move_to_special_move_hint(&mv) == h,
            None => true,
        };
        if mv.get_from_x() == from_x && mv.get_from_y() == from_y && mv.get_to_x() == to_x
            && mv.get_to_y() == to_y && kind_ok {
            return Some(mv);
        }
        i = i + 1;
    }
    None
}

/// A player's game: its identifier, the board, the side to move and the
/// colors of the player and the opponent.
pub struct Session {
    id: String,
    board: Chessboard,
    turn: u8,
    user_color: u8,
    opponent_color: u8,
}

/// The content of a session.
pub ghost struct SessionView {
    pub id: Seq<char>,
    pub board: BoardView,
    pub turn: u8,
    pub user_color: u8,
    pub opponent_color: u8,
}

impl View for Session {
    type V = SessionView;

    closed spec fn view(&self) -> SessionView {
        SessionView {
            id: self.id@,
            board: self.board@,
            turn: self.turn,
            user_color: self.user_color,
            opponent_color: self.opponent_color,
        }
    }
}

/// The session `s` after `mv`: the move is played and the turn passes.
pub open spec fn session_after(s: SessionView, mv: (u16, MoveType)) -> SessionView {
    SessionView { board: after_move(s.board, mv), turn: s.turn ^ 1u8, ..s }
}

impl Session {
    pub fn new(id: String, board: Chessboard, turn: u8, user_color: u8, opponent_color: u8) -> (r: Session)
        ensures
            r@ == (SessionView { id: id@, board: board@, turn, user_color, opponent_color }),
    {
        Session { id, board, turn, user_color, opponent_color }
    }

    pub fn get_id(&self) -> (r: String)
        ensures
            r@ == self@.id,
    {
        self.id.clone()
    }

    pub fn get_board_state(&self) -> (r: Chessboard)
        ensures
            r@ == self@.board,
    {
        self.board
    }

    pub fn get_turn(&self) -> (r: u8)
        ensures
            r == self@.turn,
    {
        self.turn
    }

    pub fn get_opponent_color(&self) -> (r: u8)
        ensures
            r == self@.opponent_color,
    {
        self.opponent_color
    }

    pub fn get_user_color(&self) -> (r: u8)
        ensures
            r == self@.user_color,
    {
        self.user_color
    }

    /// The color playing against the user: black for a white user, white
    /// otherwise.
    pub fn opponent_of_user(&self) -> (r: u8)
        ensures
            r == (if self@.user_color == WHITE {
                BLACK
            } else {
                WHITE
            }),
    {
        if self.user_color == WHITE {
            BLACK
        } else {
            WHITE
        }
    }

    /// Plays `mv` on the session's board and passes the turn.
    pub fn make_move(&mut self, mv: Move)
        requires
            playable(mv@),
        ensures
            final(self)@ == session_after(old(self)@, mv@),
    {
        self.board.move_piece(mv.get_piece_type(), mv.get_color(), &mv);
        self.turn = self.turn ^ 1u8;
    }

    /// The legal moves of `color` that leave the square on file `x` and rank
    /// `y`, as the client receives them.
    pub fn possible_moves(&self, x: u8, y: u8, color: u8) -> (r: Vec<MoveJson>)
        requires
            is_color(color),
            en_passant_in_range(self@.board, color),
        ensures
            r@ == legal_moves(self@.board, color).filter(starts_on_fn(x, y)).map_values(json_fn()),
    {
        let mut board = self.board;
        let moves = generate_moves(&mut board, color);
        moves_from_square(&moves, x, y)
    }

    /// Plays the first legal move of the side to move between the named
    /// squares and of the hinted kind. Without such a move nothing changes
    /// and `false` comes back.
    pub fn move_piece_request(
        &mut self,
        from_x: u8,
        from_y: u8,
        to_x: u8,
        to_y: u8,
        hint: Option<SpecialMoveHint>,
    ) -> (r: bool)
        requires
            is_color(old(self)@.turn),
            en_passant_in_range(old(self)@.board, old(self)@.turn),
        ensures
            !r ==> final(self)@ == old(self)@ && forall|j: int|
                0 <= j < legal_moves(old(self)@.board, old(self)@.turn).len() ==> !request_matches(
                    #[trigger] legal_moves(old(self)@.board, old(self)@.turn)[j],
                    from_x,
                    from_y,
                    to_x,
                    to_y,
                    hint,
                ),
            r ==> exists|i: int|
                0 <= i < legal_moves(old(self)@.board, old(self)@.turn).len() && request_matches(
                    legal_moves(old(self)@.board, old(self)@.turn)[i],
                    from_x,
                    from_y,
                    to_x,
                    to_y,
                    hint,
                ) && (forall|j: int|
                    0 <= j < i ==> !request_matches(
                        #[trigger] legal_moves(old(self)@.board, old(self)@.turn)[j],
                        from_x,
                        from_y,
                        to_x,
                        to_y,
                        hint,
                    )) && final(self)@ == session_after(
                    old(self)@,
                    legal_moves(old(self)@.board, old(self)@.turn)[i],
                ),
    {
        let ghost legal = legal_moves(self@.board, self@.turn);
        let mut board = self.board;
        let moves = generate_moves(&mut board, self.turn);
        assert(views(moves@) == legal);
        assert forall|j: int| 0 <= j < moves@.len() implies #[trigger] moves@[j]@ == legal[j] by {
            assert(views(moves@)[j] == moves@[j]@);
        }
        match select_move(&moves, from_x, from_y, to_x, to_y, hint) {
            None => {
                assert forall|j: int| 0 <= j < legal.len() implies !request_matches(
                    #[trigger] legal[j],
                    from_x,
                    from_y,
                    to_x,
                    to_y,
                    hint,
                ) by {
                    assert(moves@[j]@ == legal[j]);
                }
                false
            },
            Some(mv) => {
                proof {
                    let i = choose|i: int|
                        0 <= i < moves@.len() && moves@[i] == mv && request_matches(
                            mv@,
                            from_x,
                            from_y,
                            to_x,
                            to_y,
                            hint,
                        ) && forall|j: int|
                            0 <= j < i ==> !request_matches(
                                #[trigger] moves@[j]@,
                                from_x,
                                from_y,
                                to_x,
                                to_y,
                                hint,
                            );
                    assert(legal[i] == mv@);
                    assert(legal.contains(mv@));
                    lemma_legal_playable(self@.board, self@.turn, mv@);
                    assert forall|j: int| 0 <= j < i implies !request_matches(
                        #[trigger] legal[j],
                        from_x,
                        from_y,
                        to_x,
                        to_y,
                        hint,
                    ) by {
                        assert(moves@[j]@ == legal[j]);
                    }
                }
                self.make_move(mv);
                true
            },
        }
    }
}

/// The engine that answers the player: black, searching sixty plies deep
/// with the default weights.
pub const REPLY_DEPTH: u32 = 60;

/// The move the answering engine chooses on `board` with
/// `available_memory_mb` of table; `None` when black has no legal move.
pub fn engine_reply_move(board: &Chessboard, available_memory_mb: usize) -> (r: Option<Move>)
    requires
        available_memory_mb * 1024 * 1024 <= usize::MAX,
        en_passant_in_range(board@, BLACK),
    ensures
        r is None <==> legal_moves(board@, BLACK).len() == 0,
        r matches Some(m) ==> legal_moves(board@, BLACK).contains(m@) && playable(m@),
{
    let params = HeuristicParams::default();
    let mut engine = Engine::new(REPLY_DEPTH, BLACK, params, available_memory_mb);
    proof {
        assert(crate::engine::params_bounded(params));
        assert(engine_ok(engine@));
    }
    let reply = engine.get_best_move(*board);
    proof {
        if let Some(m) = reply {
            lemma_legal_playable(board@, BLACK, m@);
        }
    }
    reply
}

/// A fresh session under `id`: the starting position, white to move, the
/// user playing white against black.
pub fn new_session(id: String) -> (r: Session)
    ensures
        r@ == (SessionView {
            id: id@,
            board: starting_view(),
            turn: WHITE,
            user_color: WHITE,
            opponent_color: BLACK,
        }),
{
    Session::new(id, Chessboard::new(), WHITE, WHITE, BLACK)
}

} // verus!
