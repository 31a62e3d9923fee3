//! The session: the game, the clocks, the board view's state and the moves played, and
//! what each event of the terminal does to them.
use vstd::prelude::*;

use crate::ai::{get_ai, ChessAi};
use crate::config::Config;
use crate::engine::board::{opposite_color, Color, GameStatus, Square};
use crate::engine::game::{legal_moves_from_of, game_after_move, Game, GameModel};
use crate::engine::moves::{algebraic, Move};
use crate::engine::laws::{lemma_legal_move_shape, lemma_status_meaning};
use crate::engine::soundness::sound_position;
use crate::engine::rules::legal_moves_of;
use crate::states::UiState;
use crate::ui::layout::{rect_contains, AppChunks, BoardLayout, ScreenRect};
use crate::ui::mouse::{pixel_to_square, square_under};
use crate::utils::time::{spent_from, ChessClock, ClockModel};

verus! {

/// A key press, as far as the session reads it.
#[derive(Debug, Clone, Copy, PartialEq, Eq, Structural)]
pub struct KeyInput {
    pub is_escape: bool,
}

/// A mouse event, as far as the session reads it.
#[derive(Debug, Clone, Copy, PartialEq, Eq, Structural)]
pub struct MouseInput {
    pub is_left_press: bool,
    pub column: u16,
    pub row: u16,
}

/// What the terminal hands the session.
#[derive(Debug, Clone, Copy, PartialEq, Eq, Structural)]
pub enum Event {
    Key(KeyInput),
    Mouse(MouseInput),
    Tick,
    Resize,
}

pub struct App {
    pub config: Config,
    pub game: Game,
    pub ui_state: UiState,
    pub clock: ChessClock,
    pub move_history: Vec<String>,
    pub current_turn: Color,
    pub game_result: Option<String>,
    quit: bool,
    last_board: Option<BoardLayout>,
    last_left_rect: Option<ScreenRect>,
}

/// The value of a session.
pub ghost struct AppModel {
    pub config: Config,
    pub game: GameModel,
    pub ui_state: UiState,
    pub clock: ClockModel,
    pub move_history: Seq<Seq<char>>,
    pub current_turn: Color,
    pub game_result: Option<Seq<char>>,
    pub quit: bool,
    pub last_board: Option<BoardLayout>,
    pub last_left_rect: Option<ScreenRect>,
}

impl View for App {
    type V = AppModel;

    closed spec fn view(&self) -> AppModel {
        AppModel {
            config: self.config,
            game: self.game@,
            ui_state: self.ui_state,
            clock: self.clock@,
            move_history: self.move_history@.map_values(|t: String| t@),
            current_turn: self.current_turn,
            game_result: match self.game_result {
                Some(t) => Some(t@),
                None => None,
            },
            quit: self.quit,
            last_board: self.last_board,
            last_left_rect: self.last_left_rect,
        }
    }
}

/// The result text after a move by `mover` that leads to `status`; unchanged while the game
/// goes on.
pub open spec fn result_after(status: GameStatus, mover: Color, before: Option<Seq<char>>) -> Option<Seq<char>> {
    match status {
        GameStatus::Checkmate => Some(
            if mover == Color::White {
                "White wins by checkmate"@
            } else {
                "Black wins by checkmate"@
            },
        ),
        GameStatus::Stalemate => Some("Stalemate - Draw"@),
        GameStatus::Draw => Some("Draw"@),
        _ => before,
    }
}

/// The clocks once the turn passes.
pub open spec fn clock_switched(c: ClockModel) -> ClockModel {
    ClockModel {
        active: match c.active {
            Some(side) => Some(opposite_color(side)),
            None => None,
        },
        ..c
    }
}

/// The session once legal move `m` is played: the game moves on, the move is written down,
/// the clocks switch, the selection is cleared and an ended game gets its result.
pub open spec fn after_move(a: AppModel, m: Move) -> AppModel {
    let g = game_after_move(a.game, m);
    AppModel {
        game: g,
        move_history: a.move_history.push(algebraic(m)),
        clock: clock_switched(a.clock),
        ui_state: UiState::Idle,
        game_result: result_after(g.status, a.game.board.side_to_move, a.game_result),
        ..a
    }
}

/// The session once `m` is tried: played if it is legal, else nothing changes.
pub open spec fn move_tried(a: AppModel, m: Move) -> AppModel {
    if legal_moves_of(a.game.board).contains(m) {
        after_move(a, m)
    } else {
        a
    }
}

/// Whether `after` is `before` with the piece of the side to move on `sq` selected, together
/// with its legal moves.
pub open spec fn selected(before: AppModel, sq: Square, after: AppModel) -> bool {
    &&& after.ui_state matches UiState::PieceSelected { piece, from, legal_moves } && {
        &&& Some(piece) == before.game.board.squares[sq as int]
        &&& from == sq
        &&& legal_moves@ == legal_moves_from_of(before.game.board, sq)
    }
    &&& AppModel { ui_state: before.ui_state, ..after } == before
}

/// The first move of `moves` that goes to `sq`.
pub open spec fn first_move_to(moves: Seq<Move>, sq: Square) -> Option<Move>
    decreases moves.len(),
{
    if moves.len() == 0 {
        None
    } else if moves[0].to == sq {
        Some(moves[0])
    } else {
        first_move_to(moves.drop_first(), sq)
    }
}

/// Whether square `sq` holds a piece of the side to move.
pub open spec fn own_piece_on(a: AppModel, sq: Square) -> bool {
    a.game.board.squares[sq as int] matches Some((c, _)) && c == a.game.board.side_to_move
}

/// What a click on square `sq` does. With nothing selected, a piece of the side to move that
/// has legal moves becomes selected. With a piece selected: a click on it clears the
/// selection; a click on a square one of its moves goes to tries the first such move;
/// a click on another piece of the side to move selects it, or clears the selection if it
/// cannot move; any other click does nothing.
pub open spec fn click_outcome(before: AppModel, sq: Square, after: AppModel) -> bool {
    let b = before.game.board;
    let reselect = if legal_moves_from_of(b, sq).len() == 0 {
        after == AppModel { ui_state: UiState::Idle, ..before }
    } else {
        selected(before, sq, after)
    };
    match before.ui_state {
        UiState::Idle => if own_piece_on(before, sq) && legal_moves_from_of(b, sq).len() > 0 {
            selected(before, sq, after)
        } else {
            after == before
        },
        UiState::PieceSelected { from, legal_moves, .. } => {
            if sq == from {
                after == AppModel { ui_state: UiState::Idle, ..before }
            } else if let Some(m) = first_move_to(legal_moves@, sq) {
                after == move_tried(before, m)
            } else if own_piece_on(before, sq) {
                reselect
            } else {
                after == before
            }
        },
        _ => after == before,
    }
}

/// Whether the session can take more moves: the full-move counter has room.
pub open spec fn move_room(a: AppModel) -> bool {
    a.game.board.full_move_number < u32::MAX
}

/// Whether it is the computer's turn: nobody is awaited over the network, a level is set,
/// Black is to move and the game goes on, in check or not.
pub open spec fn computer_to_move(a: AppModel) -> bool {
    &&& !(a.ui_state is WaitingOpponent)
    &&& a.config.ai_level is Some
    &&& a.game.board.side_to_move == Color::Black
    &&& (a.game.status == GameStatus::Ongoing || a.game.status == GameStatus::Check)
}

/// The session after the clocks read `clock`: the result says the time ran out if either
/// clock is at zero.
pub open spec fn with_clock(a: AppModel, clock: ClockModel) -> AppModel {
    AppModel {
        clock,
        game_result: if clock.white_time == 0 || clock.black_time == 0 {
            Some("Time forfeit"@)
        } else {
            a.game_result
        },
        ..a
    }
}

/// What a tick does: the running clock loses the time since the last tick, a clock at zero
/// ends the game on time, and on the computer's turn the computer plays one of its legal
/// moves.
pub open spec fn tick_outcome(before: AppModel, after: AppModel) -> bool {
    exists|clock: ClockModel, elapsed: u128|
        #[trigger] spent_from(before.clock, clock, elapsed) && {
            let mid = with_clock(before, clock);
            if computer_to_move(mid) {
                exists|m: Move|
                    legal_moves_of(mid.game.board).contains(m) && after == #[trigger] after_move(mid, m)
            } else {
                after == mid
            }
        }
}

/// The session once a selection is cancelled: nothing selected any more.
pub open spec fn selection_cleared(a: AppModel) -> AppModel {
    if a.ui_state is PieceSelected {
        AppModel { ui_state: UiState::Idle, ..a }
    } else {
        a
    }
}

/// The square of the last drawn board under the cell `(column, row)`, if any.
pub open spec fn clicked_square(a: AppModel, column: u16, row: u16) -> Option<Square> {
    match a.last_board {
        Some(board) => if rect_contains(board.rect, column, row) {
            square_under(column, row, board)
        } else {
            None
        },
        None => None,
    }
}

/// What the mouse event `m` does: a left press on a square of the last drawn board clicks
/// that square; a left press anywhere else cancels the selection; anything else does
/// nothing.
pub open spec fn mouse_outcome(before: AppModel, m: MouseInput, after: AppModel) -> bool {
    if !m.is_left_press {
        after == before
    } else {
        match clicked_square(before, m.column, m.row) {
            Some(sq) => click_outcome(before, sq, after),
            None => after == selection_cleared(before),
        }
    }
}

/// Whether event `e` can lead to a move, or to a search of the legal moves: a left press on
/// a square of the last drawn board, or a tick on the computer's turn.
pub open spec fn may_play(a: AppModel, e: Event) -> bool {
    match e {
        Event::Mouse(m) => m.is_left_press && clicked_square(a, m.column, m.row) is Some,
        Event::Tick => computer_to_move(a),
        _ => false,
    }
}

/// What an event does: mouse events click, Escape asks to quit, ticks run the clocks and the
/// computer, and the rest does nothing.
pub open spec fn event_outcome(before: AppModel, e: Event, after: AppModel) -> bool {
    match e {
        Event::Mouse(m) => mouse_outcome(before, m, after),
        Event::Key(k) => after == if k.is_escape {
            AppModel { quit: true, ..before }
        } else {
            before
        },
        Event::Tick => tick_outcome(before, after),
        Event::Resize => after == before,
    }
}

/// The first move of `moves` that goes to `sq`.
fn find_move_to(moves: &Vec<Move>, sq: Square) -> (r: Option<Move>)
    ensures
        r == first_move_to(moves@, sq),
{
    let mut i: usize = 0;
    assert(moves@.subrange(0, moves@.len() as int) =~= moves@);
    while i < moves.len()
        invariant
            i <= moves@.len(),
            first_move_to(moves@, sq) == first_move_to(moves@.subrange(i as int, moves@.len() as int), sq),
        decreases moves@.len() - i,
    {
        let ghost rest = moves@.subrange(i as int, moves@.len() as int);
        assert(rest.drop_first() =~= moves@.subrange(i + 1, moves@.len() as int));
        assert(rest[0] == moves@[i as int]);
        if moves[i].to == sq {
            return Some(moves[i]);
        }
        i += 1;
    }
    assert(moves@.subrange(i as int, moves@.len() as int) =~= Seq::<Move>::empty());
    None
}

/// The start of a new game: the game at the standard position, both clocks at the
/// configured minutes, nothing selected, no move played.
pub open spec fn new_session(config: Config) -> AppModel {
    let start = (config.time_minutes * 60 * 1_000_000_000) as u128;
    AppModel {
        config,
        game: GameModel {
            board: crate::engine::board::start_position(),
            result: None,
            status: GameStatus::Ongoing,
        },
        ui_state: UiState::Idle,
        clock: ClockModel { white_time: start, black_time: start, active: Some(Color::White) },
        move_history: seq![],
        current_turn: Color::White,
        game_result: None,
        quit: false,
        last_board: None,
        last_left_rect: None,
    }
}

impl App {
    pub fn new(config: Config) -> (app: App)
        requires
            config.time_minutes * 60 <= u64::MAX,
        ensures
            app@ == new_session(config),
    {
        let game = Game::new();
        let clock = ChessClock::new((config.time_minutes * 60) as u128 * 1_000_000_000);
        let app = App {
            config,
            game,
            ui_state: UiState::Idle,
            clock,
            move_history: Vec::new(),
            current_turn: Color::White,
            game_result: None,
            quit: false,
            last_board: None,
            last_left_rect: None,
        };
        assert(app@.move_history =~= seq![]);
        app
    }

    pub fn should_quit(&self) -> (q: bool)
        ensures
            q == self@.quit,
    {
        self.quit
    }

    /// Whether `event` can lead to a move, or to a search of the legal moves: then the
    /// full-move counter must have room before the event is handled.
    pub fn may_play_on(&self, event: Event) -> (r: bool)
        ensures
            r == may_play(self@, event),
    {
        match event {
            Event::Mouse(m) => {
                if !m.is_left_press {
                    return false;
                }
                match self.last_board {
                    Some(board) => board.rect.contains(m.column, m.row) && pixel_to_square(
                        m.column,
                        m.row,
                        &board,
                    ).is_some(),
                    None => false,
                }
            },
            Event::Tick => {
                let waiting = match self.ui_state {
                    UiState::WaitingOpponent => true,
                    _ => false,
                };
                let status = self.game.status();
                !waiting && self.config.ai_level.is_some() && self.game.current_turn() == Color::Black
                    && (status == GameStatus::Ongoing || status == GameStatus::Check)
            },
            _ => false,
        }
    }

    /// Remembers where the screen's parts were drawn, for the next clicks.
    pub fn remember_layout(&mut self, chunks: &AppChunks)
        ensures
            final(self)@ == (AppModel {
                last_board: Some(chunks.board),
                last_left_rect: Some(chunks.left),
                ..old(self)@
            }),
    {
        self.last_board = Some(chunks.board);
        self.last_left_rect = Some(chunks.left);
    }

    /// Plays `mov` if it is legal.
    fn make_move(&mut self, mov: Move)
        requires
            move_room(old(self)@),
        ensures
            final(self)@ == move_tried(old(self)@, mov),
    {
        let ghost before = self@;
        let mover = self.game.current_turn();
        if self.game.make_move(&mov).is_err() {
            return;
        }
        let notation = mov.to_algebraic(self.game.board());
        self.move_history.push(notation);
        self.clock.switch_turn();
        self.ui_state = UiState::Idle;
        match self.game.status() {
            GameStatus::Checkmate => {
                let winner = self.game.current_turn().opposite();
                self.game_result = Some(
                    if winner == Color::White {
                        String::from_str("White wins by checkmate")
                    } else {
                        String::from_str("Black wins by checkmate")
                    },
                );
            },
            GameStatus::Stalemate => self.game_result = Some(String::from_str("Stalemate - Draw")),
            GameStatus::Draw => self.game_result = Some(String::from_str("Draw")),
            _ => {},
        }
        assert(self@.move_history =~= before.move_history.push(algebraic(mov)));
        assert(self@ == after_move(before, mov));
    }

    /// Lets the computer play, if it finds a move.
    fn make_ai_move(&mut self)
        requires
            move_room(old(self)@),
        ensures
            legal_moves_of(old(self)@.game.board).len() == 0 ==> final(self)@ == old(self)@,
            legal_moves_of(old(self)@.game.board).len() > 0 ==> exists|m: Move|
                legal_moves_of(old(self)@.game.board).contains(m) && final(self)@ == #[trigger] after_move(old(self)@, m),
    {
        let level = match self.config.ai_level {
            Some(l) => l,
            None => 1,
        };
        let ai = get_ai(level);
        if let Some(best_move) = ai.next_move(&self.game) {
            self.make_move(best_move);
        }
    }
    /// A click with nothing selected: selects a piece of the side to move that can move.
    fn click_when_idle(&mut self, sq: Square)
        requires
            sq < 64,
            move_room(old(self)@),
            old(self)@.ui_state is Idle,
        ensures
            click_outcome(old(self)@, sq, final(self)@),
    {
        if let Some((color, _)) = self.game.board().piece_at(sq) {
            if color == self.game.current_turn() {
                let moves = self.game.legal_moves_from(sq);
                if moves.len() == 0 {
                    return;
                }
                let piece = (color, self.game.board().piece_at(sq).unwrap().1);
                self.ui_state = UiState::PieceSelected { piece, from: sq, legal_moves: moves };
            }
        }
    }

    /// A click, with a piece selected, on a square none of its moves goes to: selects
    /// another piece of the side to move, or clears the selection if that piece cannot move.
    fn click_elsewhere(&mut self, sq: Square)
        requires
            sq < 64,
            move_room(old(self)@),
        ensures
            own_piece_on(old(self)@, sq) ==> if legal_moves_from_of(old(self)@.game.board, sq).len() == 0 {
                final(self)@ == AppModel { ui_state: UiState::Idle, ..old(self)@ }
            } else {
                selected(old(self)@, sq, final(self)@)
            },
            !own_piece_on(old(self)@, sq) ==> final(self)@ == old(self)@,
    {
        if let Some((color, _)) = self.game.board().piece_at(sq) {
            if color == self.game.current_turn() {
                let moves = self.game.legal_moves_from(sq);
                if moves.len() == 0 {
                    self.ui_state = UiState::Idle;
                    return;
                }
                let piece = (color, self.game.board().piece_at(sq).unwrap().1);
                self.ui_state = UiState::PieceSelected { piece, from: sq, legal_moves: moves };
            }
        }
    }

    /// A click on square `sq` of the board.
    fn click_square(&mut self, sq: Square)
        requires
            sq < 64,
            move_room(old(self)@),
        ensures
            click_outcome(old(self)@, sq, final(self)@),
    {
        let (selected_from, target) = match &self.ui_state {
            UiState::Idle => {
                self.click_when_idle(sq);
                return;
            },
            UiState::PieceSelected { from, legal_moves, .. } => (*from, find_move_to(legal_moves, sq)),
            _ => return,
        };
        if sq == selected_from {
            self.ui_state = UiState::Idle;
        } else if let Some(mov) = target {
            self.make_move(mov);
        } else {
            self.click_elsewhere(sq);
        }
    }

    /// A click at terminal cell `(col, row)` inside the board `board`.
    fn handle_board_click(&mut self, col: u16, row: u16, board: &BoardLayout)
        requires
            square_under(col, row, *board) is Some ==> move_room(old(self)@),
        ensures
            match square_under(col, row, *board) {
                Some(sq) => click_outcome(old(self)@, sq, final(self)@),
                None => final(self)@ == selection_cleared(old(self)@),
            },
    {
        let square = pixel_to_square(col, row, board);
        if square.is_none() {
            self.cancel_selection();
            return;
        }
        let sq = square.unwrap();
        self.click_square(sq);
    }

    fn handle_mouse(&mut self, mouse: MouseInput)
        requires
            mouse.is_left_press && clicked_square(old(self)@, mouse.column, mouse.row) is Some ==> move_room(
                old(self)@,
            ),
        ensures
            mouse_outcome(old(self)@, mouse, final(self)@),
    {
        if !mouse.is_left_press {
            return;
        }
        let (col, row) = (mouse.column, mouse.row);
        let board = self.last_board;
        if let Some(board) = board {
            if board.rect.contains(col, row) {
                self.handle_board_click(col, row, &board);
                return;
            }
        }
        self.cancel_selection();
    }

    /// Cancels the selection, if a piece is selected.
    fn cancel_selection(&mut self)
        ensures
            final(self)@ == selection_cleared(old(self)@),
    {
        if let UiState::PieceSelected { .. } = self.ui_state {
            self.ui_state = UiState::Idle;
        }
    }

    /// A tick of the timer: the clocks run, and the computer plays on its turn.
    fn handle_tick(&mut self)
        requires
            computer_to_move(old(self)@) ==> move_room(old(self)@),
        ensures
            tick_outcome(old(self)@, final(self)@),
    {
        let ghost before = self@;
        self.clock.tick();
        let ghost clock = self.clock@;
        let ghost elapsed = choose|e: u128| spent_from(before.clock, clock, e);
        if self.clock.is_zero() {
            self.game_result = Some(String::from_str("Time forfeit"));
        }
        let ghost mid = self@;
        assert(mid == with_clock(before, clock));
        let waiting = match self.ui_state {
            UiState::WaitingOpponent => true,
            _ => false,
        };
        if !waiting {
            let status = self.game.status();
            if self.config.ai_level.is_some() && self.game.current_turn() == Color::Black
                && (status == GameStatus::Ongoing || status == GameStatus::Check) {
                proof {
                    lemma_status_meaning(self@.game.board);
                }
                self.make_ai_move();
            }
        }
        assert(spent_from(before.clock, clock, elapsed));
    }

    pub fn handle_event(&mut self, event: Event)
        requires
            may_play(old(self)@, event) ==> move_room(old(self)@),
        ensures
            event_outcome(old(self)@, event, final(self)@),
    {
        match event {
            Event::Mouse(mouse) => self.handle_mouse(mouse),
            Event::Key(key) => {
                if key.is_escape {
                    self.quit = true;
                }
            },
            Event::Tick => self.handle_tick(),
            Event::Resize => {},
        }
    }
}

/// When a move mates, the session announces the side that made it as the winner: a White
/// move that mates gives "White wins by checkmate", a Black one "Black wins by checkmate";
/// the mated side is the one left to move. A move that stalemates announces a draw.
pub proof fn lemma_result_names_the_mover(a: AppModel, m: Move)
    requires
        legal_moves_of(a.game.board).contains(m),
    ensures
        ({
            let after = after_move(a, m);
            let mover = a.game.board.side_to_move;
            &&& after.game.board.side_to_move != mover
            &&& (after.game.status == GameStatus::Checkmate && mover == Color::White) ==> after.game_result
                == Some("White wins by checkmate"@)
            &&& (after.game.status == GameStatus::Checkmate && mover == Color::Black) ==> after.game_result
                == Some("Black wins by checkmate"@)
            &&& after.game.status == GameStatus::Stalemate ==> after.game_result == Some(
                "Stalemate - Draw"@,
            )
            &&& (after.game.status == GameStatus::Ongoing || after.game.status == GameStatus::Check)
                ==> after.game_result == a.game_result
        }),
{
}

/// When some move of `moves` goes to `sq`, the first such move is one of `moves` and goes to
/// `sq`.
proof fn lemma_first_move_to_found(moves: Seq<Move>, sq: Square, m: Move)
    requires
        moves.contains(m),
        m.to == sq,
    ensures
        first_move_to(moves, sq) matches Some(f) && moves.contains(f) && f.to == sq,
    decreases moves.len(),
{
    if moves[0].to != sq {
        let rest = moves.drop_first();
        let i = moves.index_of(m);
        assert(i > 0);
        assert(rest[i - 1] == m);
        lemma_first_move_to_found(rest, sq, m);
        let f = first_move_to(rest, sq)->Some_0;
        let j = rest.index_of(f);
        assert(moves[j + 1] == f);
    }
}

/// Two clicks play a move: with nothing selected, a click on a piece of the side to move
/// and then a click on a square one of its legal moves goes to make a legal move from the
/// first square to the second.
pub proof fn lemma_two_clicks_play_a_move(
    a: AppModel,
    from: Square,
    to: Square,
    a1: AppModel,
    a2: AppModel,
    m: Move,
)
    requires
        sound_position(a.game.board),
        a.ui_state is Idle,
        legal_moves_of(a.game.board).contains(m),
        m.from == from,
        m.to == to,
        click_outcome(a, from, a1),
        click_outcome(a1, to, a2),
    ensures
        exists|played: Move|
            legal_moves_of(a.game.board).contains(played) && played.from == from && played.to == to
                && a2 == #[trigger] after_move(a, played),
{
    let b = a.game.board;
    lemma_legal_move_shape(b, m);
    let keep = |mv: Move| mv.from == from;
    let lm = legal_moves_of(b);
    let i = lm.index_of(m);
    lm.lemma_filter_contains(keep, i);
    assert(legal_moves_from_of(b, from).contains(m));
    assert(own_piece_on(a, from));
    assert(selected(a, from, a1));
    let moves = legal_moves_from_of(b, from);
    lemma_first_move_to_found(moves, to, m);
    let played = first_move_to(moves, to)->Some_0;
    lm.lemma_filter_contains_rev(keep, played);
    let j = lm.filter(keep).index_of(played);
    lm.lemma_filter_pred(keep, j);
    assert(a1.game == a.game);
    assert(after_move(a1, played) == after_move(a, played));
}

} // verus!
