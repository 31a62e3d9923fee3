use chess_tui::engine::board::{
    file_rank_to_square, square_to_file_rank, Board, CastlingRights, Color, GameStatus, Piece,
};
use chess_tui::engine::fen::FenError;
use chess_tui::engine::game::Game;
use chess_tui::engine::moves::{CastlingType, Move};

const START: &str = "rnbqkbnr/pppppppp/8/8/8/8/PPPPPPPP/RNBQKBNR w KQkq - 0 1";

fn play(game: &mut Game, from: usize, to: usize) {
    let m = game
        .legal_moves()
        .into_iter()
        .find(|m| m.from == from && m.to == to)
        .expect("the move is legal");
    game.make_move(&m).expect("a legal move is made");
}

#[test]
fn start_position_has_twenty_legal_moves() {
    let game = Game::new();
    assert_eq!(game.legal_moves().len(), 20);
    assert_eq!(game.current_turn(), Color::White);
    assert_eq!(game.status(), GameStatus::Ongoing);
    assert_eq!(game.board().piece_at(4), Some((Color::White, Piece::King)));
    assert_eq!(game.board().piece_at(60), Some((Color::Black, Piece::King)));
}

#[test]
fn legal_moves_come_in_generation_order() {
    let game = Game::new();
    let moves = game.legal_moves();
    // The knight on b1 comes first: a3, then c3.
    assert_eq!(moves[0], Move::simple(1, 16));
    assert_eq!(moves[1], Move::simple(1, 18));
    // Then the knight on g1: f3, then h3.
    assert_eq!(moves[2], Move::simple(6, 21));
    assert_eq!(moves[3], Move::simple(6, 23));
    // Then the pawns of the second rank, one and two squares each.
    assert_eq!(moves[4], Move::simple(8, 16));
    assert_eq!(moves[5], Move::simple(8, 24));
}

#[test]
fn legal_moves_from_one_square() {
    let game = Game::new();
    assert_eq!(game.legal_moves_from(12), vec![Move::simple(12, 20), Move::simple(12, 28)]);
    assert_eq!(game.legal_moves_from(1), vec![Move::simple(1, 16), Move::simple(1, 18)]);
    assert!(game.legal_moves_from(0).is_empty());
    assert!(game.legal_moves_from(52).is_empty());
}

#[test]
fn illegal_move_is_refused_and_changes_nothing() {
    let mut game = Game::new();
    let before = game.legal_moves();
    let r = game.make_move(&Move::simple(12, 36));
    assert_eq!(r, Err("Illegal move".to_string()));
    assert_eq!(game.current_turn(), Color::White);
    assert_eq!(game.legal_moves(), before);
    assert_eq!(game.board().piece_at(12), Some((Color::White, Piece::Pawn)));
}

#[test]
fn double_step_opens_en_passant_and_passes_turn() {
    let mut game = Game::new();
    play(&mut game, 12, 28);
    assert_eq!(game.current_turn(), Color::Black);
    assert_eq!(game.board().en_passant, Some(20));
    assert_eq!(game.board().piece_at(28), Some((Color::White, Piece::Pawn)));
    assert!(game.board().is_empty(12));
    assert_eq!(game.board().full_move_number, 1);
    play(&mut game, 52, 36);
    assert_eq!(game.board().full_move_number, 2);
    assert_eq!(game.board().half_move_clock, 0);
}

#[test]
fn fools_mate_is_checkmate() {
    let mut game = Game::new();
    play(&mut game, 13, 21); // f3
    play(&mut game, 52, 36); // e5
    play(&mut game, 14, 30); // g4
    play(&mut game, 59, 31); // Qh4#
    assert_eq!(game.status(), GameStatus::Checkmate);
    assert!(game.legal_moves().is_empty());
    assert_eq!(game.current_turn(), Color::White);
}

#[test]
fn check_with_a_way_out() {
    let mut game = Game::new();
    play(&mut game, 12, 28); // e4
    play(&mut game, 51, 43); // d6
    play(&mut game, 5, 33); // Bb5+
    assert_eq!(game.status(), GameStatus::Check);
    let replies = game.legal_moves();
    assert!(!replies.is_empty());
    // Every reply blocks or moves away: the bishop on b5 no longer gives check after any.
    assert!(replies.iter().all(|m| m.to == 50 || m.to == 42 || m.to == 51 || m.from == 60 || m.to == 33));
}

#[test]
fn en_passant_capture_removes_the_pawn() {
    let mut game = Game::new();
    play(&mut game, 12, 28); // e4
    play(&mut game, 48, 40); // a6
    play(&mut game, 28, 36); // e5
    play(&mut game, 51, 35); // d5
    assert_eq!(game.board().en_passant, Some(43));
    let ep = game
        .legal_moves_from(36)
        .into_iter()
        .find(|m| m.is_en_passant)
        .expect("en passant is legal");
    assert_eq!(ep.to, 43);
    game.make_move(&ep).unwrap();
    assert!(game.board().is_empty(35));
    assert_eq!(game.board().piece_at(43), Some((Color::White, Piece::Pawn)));
}

#[test]
fn white_castles_king_side() {
    let mut game = Game::new();
    play(&mut game, 12, 28); // e4
    play(&mut game, 52, 36); // e5
    play(&mut game, 6, 21); // Nf3
    play(&mut game, 57, 42); // Nc6
    play(&mut game, 5, 26); // Bc4
    play(&mut game, 62, 45); // Nf6
    let castle = game
        .legal_moves_from(4)
        .into_iter()
        .find(|m| m.is_castling.is_some())
        .expect("castling is legal");
    assert_eq!(castle.to, 6);
    assert_eq!(castle.is_castling, Some(CastlingType::KingSide));
    game.make_move(&castle).unwrap();
    assert_eq!(game.board().piece_at(6), Some((Color::White, Piece::King)));
    assert_eq!(game.board().piece_at(5), Some((Color::White, Piece::Rook)));
    assert!(game.board().is_empty(4));
    assert!(game.board().is_empty(7));
    assert!(!game.board().castling.white_king);
    assert!(!game.board().castling.white_queen);
    assert_eq!(game.current_turn(), Color::Black);
}

#[test]
fn black_castles_king_side() {
    let mut game = Game::new();
    play(&mut game, 12, 28); // e4
    play(&mut game, 52, 36); // e5
    play(&mut game, 6, 21); // Nf3
    play(&mut game, 62, 45); // Nf6
    play(&mut game, 5, 26); // Bc4
    play(&mut game, 61, 34); // Bc5
    play(&mut game, 1, 18); // Nc3
    let castle = Move { from: 60, to: 62, promotion: None, is_en_passant: false, is_castling: Some(CastlingType::KingSide) };
    assert!(game.legal_moves().contains(&castle));
    game.make_move(&castle).unwrap();
    assert_eq!(game.board().piece_at(62), Some((Color::Black, Piece::King)));
    assert_eq!(game.board().piece_at(61), Some((Color::Black, Piece::Rook)));
    assert!(game.board().is_empty(60));
    assert!(game.board().is_empty(63));
    assert!(!game.board().castling.black_king);
    assert!(!game.board().castling.black_queen);
    assert!(game.board().castling.white_king);
    assert_eq!(game.board().full_move_number, 5);
    assert_eq!(game.current_turn(), Color::White);
}

#[test]
fn castling_is_refused_onto_an_attacked_square() {
    let mut game = Game::new();
    play(&mut game, 12, 28); // e4
    play(&mut game, 52, 36); // e5
    play(&mut game, 13, 29); // f4
    play(&mut game, 61, 34); // Bc5
    play(&mut game, 6, 21); // Nf3
    play(&mut game, 51, 43); // d6
    play(&mut game, 5, 12); // Be2
    play(&mut game, 62, 45); // Nf6
    // The bishop on c5 sees g1 through the square that f2 left: no castling.
    assert!(game.legal_moves_from(4).iter().all(|m| m.is_castling.is_none()));
    assert!(game.legal_moves_from(4).contains(&Move::simple(4, 5)));
}

#[test]
fn pawns_do_not_capture_across_the_board_edge() {
    let mut game = Game::new();
    play(&mut game, 12, 28); // e4
    play(&mut game, 48, 32); // a5
    play(&mut game, 11, 27); // d4
    play(&mut game, 32, 24); // a4
    // The pawn on h2 sees a black pawn on a4 only across the edge: it may only advance.
    assert_eq!(game.legal_moves_from(15), vec![Move::simple(15, 23), Move::simple(15, 31)]);
}

#[test]
fn a_distant_king_attacks_nothing() {
    let mut game = Game::new();
    play(&mut game, 12, 28); // e4
    play(&mut game, 53, 45); // f6
    play(&mut game, 4, 12); // Ke2
    play(&mut game, 60, 53); // Kf7
    play(&mut game, 12, 19); // Kd3
    play(&mut game, 48, 40); // a6
    // c4 lies on the open diagonal of the black king on f7, three squares away.
    assert!(game.legal_moves_from(19).contains(&Move::simple(19, 26)));
}

#[test]
fn apply_move_reports_an_empty_square() {
    let mut b = Board::new();
    assert_eq!(b.apply_move(&Move::simple(20, 28)), Err("No piece".to_string()));
    assert!(b.squares == Board::new().squares);
    assert_eq!(b.apply_move(&Move::simple(20, 100)), Err("No piece".to_string()));
    assert!(b.squares == Board::new().squares);
}

#[test]
fn apply_move_castles_each_way() {
    let castle = |from: usize, to: usize, ct: CastlingType| Move { from, to, promotion: None, is_en_passant: false, is_castling: Some(ct) };
    let mut b = Board::from_fen("r3k2r/8/8/8/8/8/8/R3K2R w KQkq - 5 1").unwrap();
    assert_eq!(b.apply_move(&castle(4, 6, CastlingType::KingSide)), Ok(()));
    assert_eq!(b.half_move_clock, 5);
    assert_eq!(b.piece_at(6), Some((Color::White, Piece::King)));
    assert_eq!(b.piece_at(5), Some((Color::White, Piece::Rook)));
    assert!(b.is_empty(4) && b.is_empty(7));
    assert!(!b.castling.white_king && !b.castling.white_queen);
    assert!(b.castling.black_king && b.castling.black_queen);

    let mut b = Board::from_fen("r3k2r/8/8/8/8/8/8/R3K2R w KQkq - 0 1").unwrap();
    assert_eq!(b.apply_move(&castle(4, 2, CastlingType::QueenSide)), Ok(()));
    assert_eq!(b.piece_at(2), Some((Color::White, Piece::King)));
    assert_eq!(b.piece_at(3), Some((Color::White, Piece::Rook)));
    assert!(b.is_empty(4) && b.is_empty(0));

    let mut b = Board::from_fen("r3k2r/8/8/8/8/8/8/R3K2R b KQkq - 0 1").unwrap();
    assert_eq!(b.apply_move(&castle(60, 62, CastlingType::KingSide)), Ok(()));
    assert_eq!(b.piece_at(62), Some((Color::Black, Piece::King)));
    assert_eq!(b.piece_at(61), Some((Color::Black, Piece::Rook)));
    assert!(b.is_empty(60) && b.is_empty(63));
    assert!(!b.castling.black_king && !b.castling.black_queen);
    assert_eq!(b.full_move_number, 2);

    let mut b = Board::from_fen("r3k2r/8/8/8/8/8/8/R3K2R b KQkq - 0 1").unwrap();
    assert_eq!(b.apply_move(&castle(60, 58, CastlingType::QueenSide)), Ok(()));
    assert_eq!(b.piece_at(58), Some((Color::Black, Piece::King)));
    assert_eq!(b.piece_at(59), Some((Color::Black, Piece::Rook)));
    assert!(b.is_empty(60) && b.is_empty(56));
}

#[test]
fn apply_move_promotes() {
    let mut b = Board::from_fen("k7/4P3/8/8/8/8/8/K7 w - - 3 7").unwrap();
    let m = Move { from: 52, to: 60, promotion: Some(Piece::Queen), is_en_passant: false, is_castling: None };
    b.apply_move(&m).unwrap();
    assert_eq!(b.piece_at(60), Some((Color::White, Piece::Queen)));
    assert!(b.is_empty(52));
    assert_eq!(b.half_move_clock, 0);
    assert_eq!(b.full_move_number, 7);
}

#[test]
fn apply_move_counts_black_moves() {
    let mut b = Board::new();
    b.apply_move(&Move::simple(57, 42)).unwrap();
    assert_eq!(b.full_move_number, 2);
    assert!(b.castling.black_king);
    b.apply_move(&Move::simple(63, 47)).unwrap();
    assert!(!b.castling.black_king);
    assert!(b.castling.black_queen);
}

#[test]
fn board_accessors() {
    let mut b = Board::new();
    assert_eq!(b.side_to_move(), Color::White);
    b.switch_turn();
    assert_eq!(b.side_to_move(), Color::Black);
    b.switch_turn();
    assert_eq!(b.side_to_move(), Color::White);
    b.set_piece(27, Some((Color::Black, Piece::Queen)));
    assert_eq!(b.piece_at(27), Some((Color::Black, Piece::Queen)));
    assert!(!b.is_empty(27));
    let c = b.clone();
    assert!(c.squares == b.squares);
}

#[test]
fn colours_and_squares() {
    assert_eq!(Color::White.opposite(), Color::Black);
    assert_eq!(Color::Black.opposite().opposite(), Color::Black);
    assert_eq!(square_to_file_rank(0), (0, 0));
    assert_eq!(square_to_file_rank(28), (4, 3));
    assert_eq!(square_to_file_rank(63), (7, 7));
    assert_eq!(file_rank_to_square(4, 3), 28);
    for sq in 0..64 {
        let (f, r) = square_to_file_rank(sq);
        assert_eq!(file_rank_to_square(f, r), sq);
    }
    assert_eq!(CastlingRights::default(), CastlingRights { white_king: true, white_queen: true, black_king: true, black_queen: true });
}

#[test]
fn move_notation() {
    let b = Board::new();
    assert_eq!(Move::simple(12, 28).to_algebraic(&b), "e2e4");
    assert_eq!(Move::simple(6, 21).to_algebraic(&b), "g1f3");
    let m = Move { from: 52, to: 60, promotion: Some(Piece::Knight), is_en_passant: false, is_castling: None };
    assert_eq!(m.to_algebraic(&b), "e7e8n");
    let s = Move::simple(3, 4);
    assert_eq!(s, Move { from: 3, to: 4, promotion: None, is_en_passant: false, is_castling: None });
}

#[test]
fn from_fen_reads_the_start_position() {
    let b = Board::from_fen(START).unwrap();
    let n = Board::new();
    assert!(b.squares == n.squares);
    assert_eq!(b.side_to_move, n.side_to_move);
    assert_eq!(b.castling, n.castling);
    assert_eq!(b.en_passant, None);
    assert_eq!(b.half_move_clock, 0);
    assert_eq!(b.full_move_number, 1);
    assert_eq!(b.to_fen(), START);
}

#[test]
fn from_fen_reads_fields_and_clocks() {
    let b = Board::from_fen("  4k3/8/8/8/3P4/8/8/4K3\tb\u{3000}-   e3 +17 42 ").unwrap();
    assert_eq!(b.side_to_move, Color::Black);
    assert_eq!(b.piece_at(27), Some((Color::White, Piece::Pawn)));
    assert_eq!(b.piece_at(60), Some((Color::Black, Piece::King)));
    assert_eq!(b.piece_at(4), Some((Color::White, Piece::King)));
    assert_eq!(b.half_move_clock, 17);
    assert_eq!(b.full_move_number, 42);
    // The castling and en passant fields are not read.
    assert_eq!(b.en_passant, None);
    assert_eq!(b.castling, CastlingRights::default());
    let b = Board::from_fen("rnbqkbnr/pppppppp/8/8/4P3/8/PPPP1PPP/RNBQKBNR b Kq e3 0 1").unwrap();
    assert_eq!(b.castling, CastlingRights::default());
    assert_eq!(b.en_passant, None);
    assert_eq!(b.side_to_move, Color::Black);
    assert_eq!(b.piece_at(28), Some((Color::White, Piece::Pawn)));
    let b = Board::from_fen("8/8/8/8/8/8/8/8 w KX e4 0 1").unwrap();
    assert_eq!(b.castling, CastlingRights::default());
    assert_eq!(b.en_passant, None);
    let b = Board::from_fen("8/8/8/8/8/8/8/8 w - - x -3").unwrap();
    assert_eq!(b.half_move_clock, 0);
    assert_eq!(b.full_move_number, 1);
    let b = Board::from_fen("8/8/8/8/8/8/8/8 w - - 4294967296 4294967295").unwrap();
    assert_eq!(b.half_move_clock, 0);
    assert_eq!(b.full_move_number, 4294967295);
}

#[test]
fn from_fen_refusals() {
    assert_eq!(Board::from_fen("8/8/8/8/8/8/8/8 w - - 0").err(), Some(FenError::InvalidFen));
    assert_eq!(Board::from_fen("8/8/8/8/8/8/8/8 w - - 0 1 x").err(), Some(FenError::InvalidFen));
    assert_eq!(Board::from_fen("8/8/8/8/8/8/8 w - - 0 1").err(), Some(FenError::WrongNumberOfRanks));
    assert_eq!(Board::from_fen("8/8/8/8/8/8/8/8/ w - - 0 1").err(), Some(FenError::WrongNumberOfRanks));
    assert_eq!(Board::from_fen("8/8/8/8/8/8/8/7x w - - 0 1").err(), Some(FenError::InvalidPiece));
    assert_eq!(Board::from_fen("8/8/8/8/8/8/8/8 W - - 0 1").err(), Some(FenError::InvalidSideToMove));
    assert_eq!(Board::from_fen("8/8/8/8/8/8/8/8 wb - - 0 1").err(), Some(FenError::InvalidSideToMove));
}

#[test]
fn from_fen_overlong_ranks() {
    // A piece past the last square of the board is refused.
    assert_eq!(Board::from_fen("8p/8/8/8/8/8/8/8 w - - 0 1").err(), Some(FenError::PieceOffBoard));
    assert_eq!(Board::from_fen("8/88p/8/8/8/8/8/8 w - - 0 1").err(), Some(FenError::PieceOffBoard));
    // A lower rank that runs past its eighth file goes on into the rank above.
    let b = Board::from_fen("8/8/8/8/8/8/8/8k w - - 0 1").unwrap();
    assert_eq!(b.piece_at(8), Some((Color::Black, Piece::King)));
    let b = Board::from_fen("8/8/8/8/8/8/8/44k w - - 0 1").unwrap();
    assert_eq!(b.piece_at(8), Some((Color::Black, Piece::King)));
    let b = Board::from_fen("8/8/8/9/8/8/8/8 w - - 0 1").unwrap();
    assert!((0..64).all(|sq| b.is_empty(sq)));
    let b = Board::from_fen("7k/8/8/8/8/8/8/K7 w - - 0 1").unwrap();
    assert_eq!(b.piece_at(63), Some((Color::Black, Piece::King)));
    assert_eq!(b.piece_at(0), Some((Color::White, Piece::King)));
}

#[test]
fn loyds_ten_move_stalemate() {
    let mut game = Game::new();
    let moves = [
        (12, 20), (48, 32), // e3 a5
        (3, 39), (56, 40), // Qh5 Ra6
        (39, 32), (55, 39), // Qxa5 h5
        (15, 31), (40, 47), // h4 Rah6
        (32, 50), (53, 45), // Qxc7 f6
        (50, 51), (60, 53), // Qxd7+ Kf7
        (51, 49), (59, 19), // Qxb7 Qd3
        (49, 57), (19, 55), // Qxb8 Qh7
        (57, 58), (53, 46), // Qxc8 Kg6
        (58, 44), // Qe6
    ];
    for (from, to) in moves {
        play(&mut game, from, to);
    }
    assert_eq!(game.status(), GameStatus::Stalemate);
    assert!(game.legal_moves().is_empty());
}
