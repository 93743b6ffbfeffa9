//! A game: the board, the side to move, the status and an undo stack.
use vstd::prelude::*;

verus! {

use crate::chess_move::{Move, MoveType};
use crate::chessboard::{Chessboard, BoardView, starting_view, move_piece_view};
use crate::constants::{WHITE, BLACK, is_color, opponent};
use crate::movegenerator::{playable, mover_piece, mover_color, after_move};

#[derive(Clone, Copy, Debug, PartialEq, Eq, Structural)]
pub enum GameStatus {
    Ongoing,
    /// The losing color.
    Checkmate(u8),
    Stalemate,
    Draw,
}

#[derive(Clone, Copy, Debug, PartialEq, Eq, Structural)]
pub enum IllegalMove {
    InvalidMove,
    NotPlayersTurn,
}

/// A snapshot of the board and status, kept on the undo stack.
#[derive(Clone, Copy, Debug)]
pub struct BoardState {
    pieces: [u64; 12],
    white_pieces: u64,
    black_pieces: u64,
    castling_rights: u8,
    en_passant: u8,
    status: GameStatus,
}

/// The content of a snapshot.
pub ghost struct BoardStateView {
    pub board: BoardView,
    pub status: GameStatus,
}

impl View for BoardState {
    type V = BoardStateView;

    closed spec fn view(&self) -> BoardStateView {
        BoardStateView {
            board: BoardView {
                pieces: self.pieces@,
                white: self.white_pieces,
                black: self.black_pieces,
                castling: self.castling_rights,
                en_passant: self.en_passant,
            },
            status: self.status,
        }
    }
}

#[derive(Debug)]
pub struct Game {
    board: Chessboard,
    /// WHITE or BLACK.
    turn: u8,
    status: GameStatus,
    /// Snapshots for undoing moves, the latest last.
    history: Vec<BoardState>,
}

/// The content of a game.
pub ghost struct GameView {
    pub board: BoardView,
    pub turn: u8,
    pub status: GameStatus,
    pub history: Seq<BoardStateView>,
}

impl View for Game {
    type V = GameView;

    closed spec fn view(&self) -> GameView {
        GameView {
            board: self.board@,
            turn: self.turn,
            status: self.status,
            history: self.history@.map_values(|s: BoardState| s@),
        }
    }
}

impl Clone for Game {
    /// The same board, turn, status and undo stack.
    fn clone(&self) -> (r: Self)
        ensures
            r@ == self@,
    {
        let history = self.history.clone();
        proof {
            assert forall|i: int| 0 <= i < history@.len() implies #[trigger] history@[i] == self.history@[i] by {
                assert(vstd::pervasive::cloned::<BoardState>(self.history@[i], history@[i]));
            }
            assert(history@ =~= self.history@);
        }
        Game { board: self.board, turn: self.turn, status: self.status, history }
    }
}

/// The game after `mv` is played: the current board and status are pushed
/// on the undo stack, the move is played with the piece type and color it
/// records, and the turn passes to the other side.
pub open spec fn make_move_view(g: GameView, mv: (u16, MoveType)) -> GameView {
    GameView {
        board: after_move(g.board, mv),
        turn: if g.turn == WHITE {
            BLACK
        } else {
            WHITE
        },
        status: g.status,
        history: g.history.push(BoardStateView { board: g.board, status: g.status }),
    }
}

/// The game after an undo: the latest snapshot's board and status come back
/// and the turn passes to the other side; with no snapshot nothing changes.
pub open spec fn undo_view(g: GameView) -> GameView {
    if g.history.len() == 0 {
        g
    } else {
        let s = g.history.last();
        GameView {
            board: s.board,
            turn: if g.turn == WHITE {
                BLACK
            } else {
                WHITE
            },
            status: s.status,
            history: g.history.drop_last(),
        }
    }
}

/// Undoing a move gives back the game as it was before the move: board,
/// side to move, status and undo stack (when the side to move is a color).
pub proof fn lemma_undo_after_make(g: GameView, mv: (u16, MoveType))
    requires
        is_color(g.turn),
    ensures
        undo_view(make_move_view(g, mv)) == g,
{
    assert(make_move_view(g, mv).history.drop_last() =~= g.history);
}

impl Game {
    /// A game from the standard starting position, white to move.
    pub fn new() -> (r: Game)
        ensures
            r@ == (GameView {
                board: starting_view(),
                turn: WHITE,
                status: GameStatus::Ongoing,
                history: Seq::empty(),
            }),
    {
        let r = Game {
            board: Chessboard::new(),
            turn: WHITE,
            status: GameStatus::Ongoing,
            history: Vec::new(),
        };
        assert(r@.history =~= Seq::empty());
        r
    }

    /// A game resuming from `board` with `turn` to move.
    pub fn from_chessboard(board: Chessboard, turn: u8) -> (r: Game)
        ensures
            r@ == (GameView {
                board: board@,
                turn,
                status: GameStatus::Ongoing,
                history: Seq::empty(),
            }),
    {
        let r = Game { board, turn, status: GameStatus::Ongoing, history: Vec::new() };
        assert(r@.history =~= Seq::empty());
        r
    }

    /// Plays `mv` (assumed legal), saving the position for undo, and passes
    /// the turn. The current status is returned; no move is refused.
    pub fn make_move(&mut self, mv: Move) -> (r: Result<GameStatus, IllegalMove>)
        requires
            playable(mv@),
        ensures
            final(self)@ == make_move_view(old(self)@, mv@),
            r == Ok::<GameStatus, IllegalMove>(old(self)@.status),
    {
        let ghost h0 = self.history@;
        let state = BoardState {
            pieces: self.board.get_pieces(),
            white_pieces: self.board.get_white_pieces(),
            black_pieces: self.board.get_black_pieces(),
            castling_rights: self.board.get_castling_rights(),
            en_passant: self.board.get_en_passant(),
            status: self.status,
        };
        self.history.push(state);
        let piece = self.board_piece_type(&mv);
        self.board.move_piece(piece, mv.get_color(), &mv);
        self.turn = if self.turn == WHITE {
            BLACK
        } else {
            WHITE
        };
        assert(self@.history =~= old(self)@.history.push(
            BoardStateView { board: old(self)@.board, status: old(self)@.status },
        ));
        Ok(self.status)
    }

    fn board_piece_type(&self, mv: &Move) -> (r: u8)
        ensures
            r == mover_piece(mv@),
    {
        mv.get_piece_type()
    }

    /// Takes back the last move: the latest snapshot's board and status come
    /// back and the turn passes back. Without a snapshot nothing changes.
    pub fn undo_state(&mut self)
        ensures
            final(self)@ == undo_view(old(self)@),
    {
        let ghost h0 = self@.history;
        if let Some(state) = self.history.pop() {
            self.board.set_pieces(state.pieces);
            self.board.set_white_pieces(state.white_pieces);
            self.board.set_black_pieces(state.black_pieces);
            self.board.set_castling_rights(state.castling_rights);
            self.board.set_en_passant(state.en_passant);
            self.turn = if self.turn == WHITE {
                BLACK
            } else {
                WHITE
            };
            self.status = state.status;
            assert(self@.history =~= h0.drop_last());
            assert(self@.board == h0.last().board);
        }
    }

    pub fn status(&self) -> (r: GameStatus)
        ensures
            r == self@.status,
    {
        self.status
    }

    pub fn board(&self) -> (r: &Chessboard)
        ensures
            r@ == self@.board,
    {
        &self.board
    }

    pub fn turn(&self) -> (r: u8)
        ensures
            r == self@.turn,
    {
        self.turn
    }

    pub fn get_history(&self) -> (r: &Vec<BoardState>)
        ensures
            r@.map_values(|s: BoardState| s@) == self@.history,
    {
        &self.history
    }
}

} // verus!
