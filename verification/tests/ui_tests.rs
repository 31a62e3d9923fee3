use chess_tui::config::Config;
use chess_tui::engine::board::{Color, Piece};
use chess_tui::engine::moves::Move;
use chess_tui::states::UiState;
use chess_tui::ui::board_renderer::{
    cell_lines, cell_rect, occupant_to_unicode, piece_to_unicode, square_shade, SquareShade,
};
use chess_tui::ui::layout::{board_layout, create_layout, try_create_layout, BoardLayout, ScreenRect};
use chess_tui::ui::mouse::pixel_to_square;
use chess_tui::ui::theme::tokio_night_theme;
use chess_tui::ui::widgets::{format_time, game_record_line, history_panel_lines, right_panel_lines};
use chess_tui::utils::time::ChessClock;

const SECOND: u128 = 1_000_000_000;

fn board() -> BoardLayout {
    BoardLayout { rect: ScreenRect { x: 10, y: 2, width: 80, height: 40 }, cell_width: 10, cell_height: 5 }
}

#[test]
fn pixels_to_squares() {
    let b = board();
    assert_eq!(pixel_to_square(10, 2, &b), Some(56));
    assert_eq!(pixel_to_square(89, 41, &b), Some(7));
    assert_eq!(pixel_to_square(53, 34, &b), Some(12));
    assert_eq!(pixel_to_square(9, 5, &b), None);
    assert_eq!(pixel_to_square(20, 1, &b), None);
    assert_eq!(pixel_to_square(90, 5, &b), None);
    assert_eq!(pixel_to_square(20, 42, &b), None);
    let flat = BoardLayout { rect: ScreenRect { x: 0, y: 0, width: 8, height: 8 }, cell_width: 0, cell_height: 1 };
    assert_eq!(pixel_to_square(1, 1, &flat), None);
}

#[test]
fn rect_contains_cells() {
    let r = ScreenRect { x: 10, y: 2, width: 5, height: 3 };
    assert!(r.contains(10, 2));
    assert!(r.contains(14, 4));
    assert!(!r.contains(15, 4));
    assert!(!r.contains(14, 5));
    assert!(!r.contains(9, 3));
    let edge = ScreenRect { x: 65530, y: 0, width: 100, height: 1 };
    assert!(edge.contains(65534, 0));
    assert!(!edge.contains(65535, 0));
}

#[test]
fn piece_symbols() {
    assert_eq!(piece_to_unicode(Color::White, Piece::King), '♔');
    assert_eq!(piece_to_unicode(Color::Black, Piece::Pawn), '♟');
    assert_eq!(piece_to_unicode(Color::Black, Piece::Knight), '♞');
    assert_eq!(occupant_to_unicode(None), ' ');
    assert_eq!(occupant_to_unicode(Some((Color::White, Piece::Queen))), '♕');
}

#[test]
fn square_shades() {
    assert_eq!(square_shade(&UiState::Idle, 0, 0), SquareShade::Light);
    assert_eq!(square_shade(&UiState::Idle, 0, 1), SquareShade::Dark);
    let selected = UiState::PieceSelected {
        piece: (Color::White, Piece::Pawn),
        from: 12,
        legal_moves: vec![Move::simple(12, 20), Move::simple(12, 28)],
    };
    // e2 is drawn on row 6, column 4.
    assert_eq!(square_shade(&selected, 6, 4), SquareShade::Selection);
    assert_eq!(square_shade(&selected, 5, 4), SquareShade::MoveHint);
    assert_eq!(square_shade(&selected, 4, 4), SquareShade::MoveHint);
    assert_eq!(square_shade(&selected, 4, 5), SquareShade::Dark);
    assert_eq!(square_shade(&UiState::GameFinished, 7, 7), SquareShade::Light);
}

#[test]
fn cells() {
    let lines = cell_lines('♔', 5, 3);
    assert_eq!(lines, vec!["     ".to_string(), "  ♔  ".to_string(), "     ".to_string()]);
    let lines = cell_lines('x', 4, 2);
    assert_eq!(lines, vec!["    ".to_string(), " x ".to_string()]);
    let r = cell_rect(&board(), 1, 2);
    assert_eq!(r, ScreenRect { x: 30, y: 7, width: 10, height: 5 });
}

#[test]
fn layouts() {
    let theme = tokio_night_theme();
    let area = ScreenRect { x: 0, y: 0, width: 100, height: 40 };
    let chunks = create_layout(area, &theme);
    assert_eq!(chunks.left, ScreenRect { x: 0, y: 0, width: 25, height: 40 });
    assert_eq!(chunks.right, ScreenRect { x: 75, y: 0, width: 25, height: 40 });
    assert_eq!(chunks.board.rect, ScreenRect { x: 30, y: 0, width: 40, height: 40 });
    assert_eq!(chunks.board.cell_width, 5);
    assert_eq!(chunks.board.cell_height, 5);
    assert_eq!(try_create_layout(area, &theme), Some(chunks));
    // A board square of more than 65535 cells shrinks to 255 by 255.
    let big = create_layout(ScreenRect { x: 0, y: 0, width: 2000, height: 1000 }, &theme);
    assert_eq!(big.board.rect, ScreenRect { x: 500, y: 0, width: 255, height: 255 });
    let b = board_layout(ScreenRect { x: 1, y: 1, width: 17, height: 9 });
    assert_eq!((b.cell_width, b.cell_height), (2, 1));
}

#[test]
fn theme_colours() {
    let t = tokio_night_theme();
    assert_eq!(t.light_square, (46, 52, 64));
    assert_eq!(t.selection, (94, 129, 172));
    assert_eq!(t.background, (30, 31, 41));
}

#[test]
fn clock_texts() {
    assert_eq!(format_time(0), "00:00");
    assert_eq!(format_time(605 * SECOND + 999_999_999), "10:05");
    assert_eq!(format_time(6000 * SECOND), "100:00");
    assert_eq!(format_time(59 * SECOND), "00:59");
}

#[test]
fn information_panel() {
    let config = Config::default();
    let clock = ChessClock::new(65 * SECOND);
    let history: Vec<String> = vec!["e2e4".into(), "e7e5".into(), "g1f3".into()];
    let lines = right_panel_lines(&config, &clock, &history, 30);
    assert_eq!(
        lines,
        vec![
            "White: Player (ELO 1200)",
            "Black: AI (ELO 1000)",
            "",
            "White clock: 01:05",
            "Black clock: 01:05",
            "",
            "Move history:",
            "1. e2e4 e7e5",
            "2. g1f3 ",
        ]
    );
    let short = right_panel_lines(&config, &clock, &history, 11);
    assert_eq!(short.len(), 8);
    assert_eq!(short[7], "1. e2e4 e7e5");
    let none = right_panel_lines(&config, &clock, &history, 4);
    assert_eq!(none.len(), 7);
}

#[test]
fn history_panel_texts() {
    assert_eq!(game_record_line("2024-05-01", "Ana", "Computer", "White wins by checkmate"), "2024-05-01  Ana vs Computer  White wins by checkmate");
    assert_eq!(history_panel_lines(vec![]), vec!["No history".to_string()]);
    let records = vec!["a".to_string(), "b".to_string()];
    assert_eq!(history_panel_lines(records.clone()), records);
}
