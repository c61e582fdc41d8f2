use chess::{Game, BISHOP, BLACK, EMPTY, KING, KNIGHT, PAWN, QUEEN, ROOK, WHITE};

const START: &str = "rnbqkbnr/pppppppp/8/8/8/8/PPPPPPPP/RNBQKBNR w KQkq - 0 1";

#[test]
fn the_start_position_as_text_and_as_built_agree() {
    let parsed = Game::new(START);
    let built = Game::starting_position();
    for sq in 0..64 {
        assert_eq!(parsed.board[sq].get_type(), built.board[sq].get_type(), "square {}", sq);
        assert_eq!(parsed.board[sq].get_color(), built.board[sq].get_color(), "square {}", sq);
        assert_eq!(parsed.board[sq].get_flags(), built.board[sq].get_flags(), "square {}", sq);
    }
    assert_eq!(parsed.turn, built.turn);
    assert_eq!(parsed.possible_ep_capture, built.possible_ep_capture);
    assert_eq!(parsed.king_square, built.king_square);
    assert_eq!(parsed.half_move_clock, built.half_move_clock);
}

#[test]
fn the_start_position_square_by_square() {
    let game = Game::starting_position();
    let back = [ROOK, KNIGHT, BISHOP, QUEEN, KING, BISHOP, KNIGHT, ROOK];
    for column in 0..8 {
        assert_eq!(game.board[column].get_type(), back[column]);
        assert_eq!(game.board[column].get_color(), BLACK);
        assert_eq!(game.board[8 + column].get_type(), PAWN);
        assert_eq!(game.board[8 + column].get_color(), BLACK);
        for row in 2..6 {
            assert_eq!(game.board[8 * row + column].get_type(), EMPTY);
        }
        assert_eq!(game.board[48 + column].get_type(), PAWN);
        assert_eq!(game.board[48 + column].get_color(), WHITE);
        assert_eq!(game.board[56 + column].get_type(), back[column]);
        assert_eq!(game.board[56 + column].get_color(), WHITE);
    }
    assert!((0..64).all(|sq| !game.board[sq].has_moved()));
    assert_eq!(game.turn, WHITE);
    assert_eq!(game.possible_ep_capture, 64);
    assert_eq!(game.king_square, [60, 4]);
    assert_eq!(game.half_move_clock, 0);
}

#[test]
fn digits_skip_columns() {
    let game = Game::new("4k3/8/8/2n2B2/8/8/3P4/Q3K2R b - - 0 1");
    assert_eq!(game.board[4].get_type(), KING);
    assert_eq!(game.board[4].get_color(), BLACK);
    assert_eq!(game.board[26].get_type(), KNIGHT);
    assert_eq!(game.board[26].get_color(), BLACK);
    assert_eq!(game.board[29].get_type(), BISHOP);
    assert_eq!(game.board[29].get_color(), WHITE);
    assert_eq!(game.board[51].get_type(), PAWN);
    assert_eq!(game.board[56].get_type(), QUEEN);
    assert_eq!(game.board[60].get_type(), KING);
    assert_eq!(game.board[63].get_type(), ROOK);
    let pieces = (0..64).filter(|&sq| game.board[sq].get_type() != EMPTY).count();
    assert_eq!(pieces, 7);
    assert_eq!(game.turn, BLACK);
    assert_eq!(game.king_square, [60, 4]);
}

#[test]
fn the_side_to_move() {
    assert_eq!(Game::new("4k3/8/8/8/8/8/8/4K3 w - - 0 1").turn, WHITE);
    assert_eq!(Game::new("4k3/8/8/8/8/8/8/4K3 b - - 0 1").turn, BLACK);
    assert_eq!(Game::new("4k3/8/8/8/8/8/8/4K3 x - - 0 1").turn, WHITE);
    assert_eq!(Game::new("4k3/8/8/8/8/8/8/4K3 bb - - 0 1").turn, WHITE);
}

#[test]
fn a_missing_castling_right_marks_the_corner_as_moved() {
    let game = Game::new("r3k2r/8/8/8/8/8/8/R3K2R w Kq - 0 1");
    assert!(!game.board[63].has_moved());
    assert!(game.board[56].has_moved());
    assert!(game.board[7].has_moved());
    assert!(!game.board[0].has_moved());
    assert!(!game.board[60].has_moved());
    assert!(!game.board[4].has_moved());
    let castles: Vec<usize> = game
        .get_legal_moves(60)
        .iter()
        .filter(|m| m.is_castle())
        .map(|m| m.get_to())
        .collect();
    assert_eq!(castles, vec![62]);
    let game = Game::new("r3k2r/8/8/8/8/8/8/R3K2R b Kq - 0 1");
    let castles: Vec<usize> = game
        .get_legal_moves(4)
        .iter()
        .filter(|m| m.is_castle())
        .map(|m| m.get_to())
        .collect();
    assert_eq!(castles, vec![2]);
}

#[test]
fn no_castling_right_marks_all_corners() {
    let game = Game::new("r3k2r/8/8/8/8/8/8/R3K2R w - - 0 1");
    for corner in [0, 7, 56, 63] {
        assert!(game.board[corner].has_moved());
        assert_eq!(game.board[corner].get_type(), ROOK);
    }
    assert!(game.get_all_legal_moves().iter().all(|m| !m.is_castle()));
}

#[test]
fn the_en_passant_field_gives_the_pawns_square() {
    let game = Game::new("rnbqkbnr/pppppppp/8/8/4P3/8/PPPP1PPP/RNBQKBNR b KQkq e3 0 1");
    assert_eq!(game.possible_ep_capture, 36);
    assert!(game.is_well_formed());
    let game = Game::new("rnbqkbnr/ppp1pppp/8/3pP3/8/8/PPPP1PPP/RNBQKBNR w KQkq d6 0 3");
    assert_eq!(game.possible_ep_capture, 27);
    assert!(game.is_well_formed());
    let captures: Vec<usize> = game
        .get_legal_moves(28)
        .iter()
        .filter(|m| m.is_ep_capture())
        .map(|m| m.get_to())
        .collect();
    assert_eq!(captures, vec![19]);
    let game = Game::new(START);
    assert_eq!(game.possible_ep_capture, 64);
}

#[test]
fn an_en_passant_field_of_another_length_gives_no_marker() {
    assert_eq!(Game::new("4k3/8/8/8/8/8/8/4K3 w - - 0 1").possible_ep_capture, 64);
    assert_eq!(Game::new("4k3/8/8/8/8/8/8/4K3 w -  0 1").possible_ep_capture, 64);
    assert_eq!(Game::new("4k3/8/8/8/8/8/8/4K3 w - e3x 0 1").possible_ep_capture, 64);
    assert_eq!(Game::new("4k3/8/8/8/8/8/8/4K3 w - \u{e9}\u{e9} 0 1").possible_ep_capture, 64);
    assert_eq!(Game::new("4k3/8/8/8/8/8/8/4K3 w - \u{20ac} 0 1").possible_ep_capture, 64);
}

#[test]
fn the_en_passant_marker_lies_one_row_beyond_the_target() {
    assert_eq!(Game::new("4k3/8/8/8/8/8/8/4K3 w - a8 0 1").possible_ep_capture, 8);
    assert_eq!(Game::new("4k3/8/8/8/8/8/8/4K3 w - a4 0 1").possible_ep_capture, 40);
    assert_eq!(Game::new("4k3/8/8/8/8/8/8/4K3 w - b4 0 1").possible_ep_capture, 25);
    assert_eq!(Game::new("4k3/8/8/8/8/8/8/4K3 w - h1 0 1").possible_ep_capture, 55);
}

#[test]
fn the_half_move_clock() {
    assert_eq!(Game::new("4k3/8/8/8/8/8/8/4K3 w - - 0 1").half_move_clock, 0);
    assert_eq!(Game::new("4k3/8/8/8/8/8/8/4K3 w - - 57 30").half_move_clock, 57);
    assert_eq!(Game::new("4k3/8/8/8/8/8/8/4K3 w - - 007").half_move_clock, 7);
    assert_eq!(Game::new("4k3/8/8/8/8/8/8/4K3 w - - +12 1").half_move_clock, 12);
    assert_eq!(Game::new("4k3/8/8/8/8/8/8/4K3 w - - 4294967295 1").half_move_clock, 4294967295);
}

#[test]
fn what_follows_the_eighth_column_or_row_is_not_read() {
    let game = Game::new("4k3/8/8/8/8/8/8/4K3PPP/pppppppp w - - 0 1");
    let pieces = (0..64).filter(|&sq| game.board[sq].get_type() != EMPTY).count();
    assert_eq!(pieces, 2);
    let game = Game::new("4k3ppp/62PPP/8/8/8/8/8/4K3 w - - 0 1");
    assert_eq!(game.board[4].get_type(), KING);
    assert_eq!(game.board[60].get_type(), KING);
    let pieces = (0..64).filter(|&sq| game.board[sq].get_type() != EMPTY).count();
    assert_eq!(pieces, 2);
    let game = Game::new("4k3/8/8/8/8/8/8/4K3 w - - 0 1 and what follows");
    assert_eq!(game.half_move_clock, 0);
}

#[test]
fn the_last_king_of_a_color_is_cached() {
    let game = Game::new("K3k3/8/8/8/8/8/8/4K3 w - - 0 1");
    assert_eq!(game.king_square, [60, 4]);
    let game = Game::new("8/8/8/8/8/8/8/8 w - - 0 1");
    assert_eq!(game.king_square, [0, 0]);
}

#[test]
fn set_board_state_replaces_everything() {
    let mut game = Game::starting_position();
    assert!(game.make_move_from_to(52, 36, EMPTY));
    game.set_board_state("7k/5Q2/6K1/8/8/8/8/8 b - - 13 40");
    assert_eq!(game.turn, BLACK);
    assert_eq!(game.possible_ep_capture, 64);
    assert_eq!(game.king_square, [22, 7]);
    assert_eq!(game.half_move_clock, 13);
    assert_eq!(game.board[13].get_type(), QUEEN);
    let pieces = (0..64).filter(|&sq| game.board[sq].get_type() != EMPTY).count();
    assert_eq!(pieces, 3);
    game.set_board_state(START);
    assert_eq!(game.get_all_legal_moves().len(), 20);
}

#[test]
fn a_text_that_describes_a_position_is_read() {
    let game = Game::try_new(START).expect("the starting position is well written");
    assert_eq!(game.get_all_legal_moves().len(), 20);
    assert!(game.is_sound());
    let game = Game::try_new("4k3/8/8/8/8/8/8/4K3 b - - 18446744073709551615 1").unwrap();
    assert_eq!(game.half_move_clock, usize::MAX);
    assert_eq!(game.turn, BLACK);
    assert!(Game::try_new("4k3/8/8/8/8/8/8/4K3 w - - +0").is_some());
    assert!(Game::try_new("4k3/8/8/8/8/8/8/4K3  - - 0").is_some());
    assert!(Game::try_new("44/017/8/8/8/8/8/9 w KQkq e3 5").is_some());
}

#[test]
fn a_text_with_too_few_fields_or_rows_is_refused() {
    assert!(Game::try_new("").is_none());
    assert!(Game::try_new("4k3/8/8/8/8/8/8/4K3").is_none());
    assert!(Game::try_new("4k3/8/8/8/8/8/8/4K3 w - -").is_none());
    assert!(Game::try_new("4k3/8/8/8/8/8/4K3 w - - 0 1").is_none());
    assert!(Game::try_new(" 4k3/8/8/8/8/8/8/4K3 w - - 0 1").is_none());
}

#[test]
fn a_row_that_is_short_or_holds_a_stray_character_is_refused() {
    assert!(Game::try_new("4k2/8/8/8/8/8/8/4K3 w - - 0 1").is_none());
    assert!(Game::try_new("4k3/8/8/8/8/8/8/ w - - 0 1").is_none());
    assert!(Game::try_new("4k3/8/8/8/8/8/8/4K2 w - - 0 1").is_none());
    assert!(Game::try_new("4k3/8/8/8/8/8/8/4X3 w - - 0 1").is_none());
    assert!(Game::try_new("4k3/8/8/8/8/8/8/4K-3 w - - 0 1").is_none());
    assert!(Game::try_new("4k3/8/8/8/8/8/8/4K3x w - - 0 1").is_some());
}

#[test]
fn a_clock_that_is_no_number_or_too_large_is_refused() {
    assert!(Game::try_new("4k3/8/8/8/8/8/8/4K3 w - - ").is_none());
    assert!(Game::try_new("4k3/8/8/8/8/8/8/4K3 w - - x").is_none());
    assert!(Game::try_new("4k3/8/8/8/8/8/8/4K3 w - - 1x").is_none());
    assert!(Game::try_new("4k3/8/8/8/8/8/8/4K3 w - - -1").is_none());
    assert!(Game::try_new("4k3/8/8/8/8/8/8/4K3 w - - +").is_none());
    assert!(Game::try_new("4k3/8/8/8/8/8/8/4K3 w - - ++1").is_none());
    assert!(Game::try_new("4k3/8/8/8/8/8/8/4K3 w - - 18446744073709551616").is_none());
    assert!(Game::try_new("4k3/8/8/8/8/8/8/4K3 w - - 99999999999999999999999").is_none());
}

#[test]
fn an_en_passant_field_of_one_wide_character_is_refused() {
    assert!(Game::try_new("4k3/8/8/8/8/8/8/4K3 w - \u{e9} 0 1").is_none());
    assert!(Game::try_new("4k3/8/8/8/8/8/8/4K3 w - \u{7ff} 0 1").is_none());
    assert!(Game::try_new("4k3/8/8/8/8/8/8/4K3 w - \u{800} 0 1").is_some());
    assert!(Game::try_new("4k3/8/8/8/8/8/8/4K3 w - x 0 1").is_some());
}
