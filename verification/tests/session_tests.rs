use chess_tui::ai::{get_ai, ChessAi, RandomAi};
use chess_tui::app::{App, Event, KeyInput, MouseInput};
use chess_tui::config::Config;
use chess_tui::engine::board::{Color, GameStatus, Piece};
use chess_tui::engine::game::Game;
use chess_tui::states::UiState;
use chess_tui::ui::layout::{board_layout, AppChunks, ScreenRect};
use chess_tui::utils::time::{loop_step, ChessClock};

const SECOND: u128 = 1_000_000_000;

fn play(game: &mut Game, from: usize, to: usize) {
    let m = game.legal_moves().into_iter().find(|m| m.from == from && m.to == to).unwrap();
    game.make_move(&m).unwrap();
}

/// A board of 80 by 40 cells at the top left: squares of 10 by 5 cells.
fn layout() -> AppChunks {
    let rect = ScreenRect { x: 0, y: 0, width: 80, height: 40 };
    AppChunks {
        left: ScreenRect { x: 0, y: 0, width: 0, height: 0 },
        board: board_layout(rect),
        right: ScreenRect { x: 80, y: 0, width: 20, height: 40 },
    }
}

fn click(app: &mut App, file: u16, rank: u16) {
    let row = (7 - rank) * 5 + 2;
    let column = file * 10 + 3;
    app.handle_event(Event::Mouse(MouseInput { is_left_press: true, column, row }));
}

#[test]
fn config_defaults() {
    let c = Config::default();
    assert_eq!(c.player_name, "Player");
    assert_eq!(c.time_minutes, 10);
    assert_eq!(c.ai_level, Some(1));
    assert_eq!(c.port, 23456);
    assert_eq!(c.theme, "tokio_night");
}

#[test]
fn clock_spends_only_the_running_side() {
    let mut c = ChessClock::new(5 * SECOND);
    assert_eq!(c.white_nanos(), 5 * SECOND);
    assert_eq!(c.black_nanos(), 5 * SECOND);
    c.spend(SECOND);
    assert_eq!(c.white_nanos(), 4 * SECOND);
    assert_eq!(c.black_nanos(), 5 * SECOND);
    c.switch_turn();
    c.spend(10 * SECOND);
    assert_eq!(c.white_nanos(), 4 * SECOND);
    assert_eq!(c.black_nanos(), 0);
    assert!(c.is_zero());
    assert_eq!(c.white_time, 4 * SECOND);
}

#[test]
fn clock_tick_never_adds_time() {
    let mut c = ChessClock::new(5 * SECOND);
    c.tick();
    assert!(c.white_nanos() <= 5 * SECOND);
    assert_eq!(c.black_nanos(), 5 * SECOND);
    assert!(!c.is_zero());
}

#[test]
fn random_ai_plays_legal_moves() {
    let game = Game::new();
    let legal = game.legal_moves();
    for _ in 0..20 {
        let m = RandomAi.next_move(&game).expect("there are legal moves");
        assert!(legal.contains(&m));
        let m = get_ai(3).next_move(&game).expect("there are legal moves");
        assert!(legal.contains(&m));
    }
}

#[test]
fn random_ai_has_nothing_after_mate() {
    let mut game = Game::new();
    play(&mut game, 13, 21);
    play(&mut game, 52, 36);
    play(&mut game, 14, 30);
    play(&mut game, 59, 31);
    assert_eq!(RandomAi.next_move(&game), None);
    assert_eq!(get_ai(1).next_move(&game), None);
}

#[test]
fn new_session() {
    let app = App::new(Config::default());
    assert!(!app.should_quit());
    assert!(matches!(app.ui_state, UiState::Idle));
    assert_eq!(app.clock.white_nanos(), 600 * SECOND);
    assert_eq!(app.clock.black_nanos(), 600 * SECOND);
    assert!(app.move_history.is_empty());
    assert_eq!(app.current_turn, Color::White);
    assert_eq!(app.game_result, None);
    assert_eq!(app.game.status(), GameStatus::Ongoing);
}

#[test]
fn escape_quits_and_other_keys_do_not() {
    let mut app = App::new(Config::default());
    app.handle_event(Event::Key(KeyInput { is_escape: false }));
    assert!(!app.should_quit());
    app.handle_event(Event::Resize);
    assert!(!app.should_quit());
    app.handle_event(Event::Key(KeyInput { is_escape: true }));
    assert!(app.should_quit());
}

#[test]
fn clicks_select_and_move() {
    let mut config = Config::default();
    config.ai_level = None;
    let mut app = App::new(config);
    // Before any layout is known, clicks do nothing.
    click(&mut app, 4, 1);
    assert!(matches!(app.ui_state, UiState::Idle));
    app.remember_layout(&layout());
    // A click on an empty square or an enemy piece does nothing.
    click(&mut app, 4, 4);
    assert!(matches!(app.ui_state, UiState::Idle));
    click(&mut app, 4, 6);
    assert!(matches!(app.ui_state, UiState::Idle));
    // A click on the e2 pawn selects it with its two moves.
    click(&mut app, 4, 1);
    match &app.ui_state {
        UiState::PieceSelected { piece, from, legal_moves } => {
            assert_eq!(*piece, (Color::White, Piece::Pawn));
            assert_eq!(*from, 12);
            assert_eq!(legal_moves.len(), 2);
        },
        _ => panic!("the pawn is selected"),
    }
    // A second click on it clears the selection.
    click(&mut app, 4, 1);
    assert!(matches!(app.ui_state, UiState::Idle));
    // Select again, then switch to the g1 knight.
    click(&mut app, 4, 1);
    click(&mut app, 6, 0);
    match &app.ui_state {
        UiState::PieceSelected { from, .. } => assert_eq!(*from, 6),
        _ => panic!("the knight is selected"),
    }
    // Selecting the rook, which cannot move, clears the selection.
    click(&mut app, 7, 0);
    assert!(matches!(app.ui_state, UiState::Idle));
    // e2-e4.
    click(&mut app, 4, 1);
    click(&mut app, 4, 3);
    assert!(matches!(app.ui_state, UiState::Idle));
    assert_eq!(app.move_history, vec!["e2e4".to_string()]);
    assert_eq!(app.game.current_turn(), Color::Black);
    // Without a computer player, ticks make no move.
    app.handle_event(Event::Tick);
    assert_eq!(app.move_history.len(), 1);
}

#[test]
fn right_clicks_do_nothing_and_clicks_outside_cancel() {
    let mut app = App::new(Config::default());
    app.remember_layout(&layout());
    app.handle_event(Event::Mouse(MouseInput { is_left_press: false, column: 43, row: 32 }));
    assert!(matches!(app.ui_state, UiState::Idle));
    app.handle_event(Event::Mouse(MouseInput { is_left_press: true, column: 90, row: 32 }));
    assert!(matches!(app.ui_state, UiState::Idle));
    // With the e2 pawn selected, a right click keeps the selection and a left click
    // beside the board cancels it.
    click(&mut app, 4, 1);
    assert!(matches!(app.ui_state, UiState::PieceSelected { .. }));
    app.handle_event(Event::Mouse(MouseInput { is_left_press: false, column: 90, row: 32 }));
    assert!(matches!(app.ui_state, UiState::PieceSelected { .. }));
    app.handle_event(Event::Mouse(MouseInput { is_left_press: true, column: 90, row: 32 }));
    assert!(matches!(app.ui_state, UiState::Idle));
    assert!(app.move_history.is_empty());
    assert_eq!(app.game.current_turn(), Color::White);
}

#[test]
fn computer_answers_on_tick() {
    let mut app = App::new(Config::default());
    app.remember_layout(&layout());
    click(&mut app, 4, 1);
    click(&mut app, 4, 3);
    assert_eq!(app.game.current_turn(), Color::Black);
    app.handle_event(Event::Tick);
    assert_eq!(app.move_history.len(), 2);
    assert_eq!(app.game.current_turn(), Color::White);
    assert!(app.clock.white_nanos() <= 600 * SECOND);
    assert!(app.clock.black_nanos() <= 600 * SECOND);
    assert_eq!(app.game_result, None);
}

#[test]
fn computer_answers_a_check() {
    let mut config = Config::default();
    config.ai_level = None;
    let mut app = App::new(config);
    app.remember_layout(&layout());
    for (from, to) in [((4, 1), (4, 3)), ((5, 6), (5, 5)), ((3, 0), (7, 4))] {
        click(&mut app, from.0, from.1);
        click(&mut app, to.0, to.1);
    }
    assert_eq!(app.game.status(), GameStatus::Check);
    assert_eq!(app.game.current_turn(), Color::Black);
    app.config.ai_level = Some(1);
    app.handle_event(Event::Tick);
    assert_eq!(app.move_history.len(), 4);
    assert_eq!(app.game.current_turn(), Color::White);
}

#[test]
fn checkmate_is_announced() {
    let mut config = Config::default();
    config.ai_level = None;
    let mut app = App::new(config);
    app.remember_layout(&layout());
    for (from, to) in [((5, 1), (5, 2)), ((4, 6), (4, 4)), ((6, 1), (6, 3)), ((3, 7), (7, 3))] {
        click(&mut app, from.0, from.1);
        click(&mut app, to.0, to.1);
    }
    assert_eq!(app.game.status(), GameStatus::Checkmate);
    assert_eq!(app.game_result, Some("Black wins by checkmate".to_string()));
    assert_eq!(app.move_history, vec!["f2f3", "e7e5", "g2g4", "d8h4"]);
}

#[test]
fn event_loop_steps() {
    let tick = 100_000_000;
    let step = loop_step(tick, 30_000_000);
    assert_eq!(step.poll_timeout_nanos, 70_000_000);
    assert!(!step.tick_due);
    let step = loop_step(tick, tick);
    assert_eq!(step.poll_timeout_nanos, 0);
    assert!(step.tick_due);
    let step = loop_step(tick, 250_000_000);
    assert_eq!(step.poll_timeout_nanos, 0);
    assert!(step.tick_due);
}

#[test]
fn events_that_may_play() {
    let mut app = App::new(Config::default());
    let left_on_e2 = Event::Mouse(MouseInput { is_left_press: true, column: 43, row: 32 });
    // Before any layout is known, no click lands on a square.
    assert!(!app.may_play_on(left_on_e2));
    app.remember_layout(&layout());
    assert!(app.may_play_on(left_on_e2));
    assert!(!app.may_play_on(Event::Mouse(MouseInput { is_left_press: false, column: 43, row: 32 })));
    assert!(!app.may_play_on(Event::Mouse(MouseInput { is_left_press: true, column: 90, row: 32 })));
    assert!(!app.may_play_on(Event::Key(KeyInput { is_escape: true })));
    // White to move: a tick does not let the computer play.
    assert!(!app.may_play_on(Event::Tick));
    click(&mut app, 4, 1);
    click(&mut app, 4, 3);
    assert!(app.may_play_on(Event::Tick));
}
