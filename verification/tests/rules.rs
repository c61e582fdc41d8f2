use chess::movegen::MoveGenerator;
use chess::{
    Game, GameState, Move, Piece, BISHOP, BISHOP_PROMOTION, BLACK, EMPTY, KING, KNIGHT, KNIGHT_PROMOTION,
    PAWN, QUEEN, QUEEN_PROMOTION, ROOK, ROOK_PROMOTION, WHITE,
};

const CASTLING: &str = "r3k2r/8/8/8/8/8/8/R3K2R w KQkq - 0 1";

fn play(game: &mut Game, moves: &[(usize, usize)]) {
    for &(from, to) in moves {
        assert!(game.make_move_from_to(from, to, EMPTY), "move {} to {}", from, to);
    }
}

fn targets(moves: &[Move]) -> Vec<usize> {
    let mut squares: Vec<usize> = moves.iter().map(|m| m.get_to()).collect();
    squares.sort();
    squares
}

fn same_game(a: &Game, b: &Game) -> bool {
    (0..64).all(|sq| {
        a.board[sq].get_type() == b.board[sq].get_type()
            && a.board[sq].get_color() == b.board[sq].get_color()
            && a.board[sq].get_flags() == b.board[sq].get_flags()
    }) && a.turn == b.turn
        && a.possible_ep_capture == b.possible_ep_capture
        && a.king_square == b.king_square
        && a.half_move_clock == b.half_move_clock
}

#[test]
fn legal_moves_never_leave_the_own_king_attacked() {
    let generator = MoveGenerator::new();
    for fen in [
        "rnbqkbnr/pppppppp/8/8/8/8/PPPPPPPP/RNBQKBNR w KQkq - 0 1",
        "r3k2r/p1ppqpb1/bn2pnp1/3PN3/1p2P3/2N2Q1p/PPPBBPPP/R3K2R w KQkq - 0 1",
        "8/2p5/3p4/KP5r/1R3p1k/8/4P1P1/8 w - - 0 1",
        "rnbq1k1r/pp1Pbppp/2p5/8/2B5/8/PPP1NnPP/RNBQK2R w KQ - 1 8",
        "4r2k/8/8/8/8/8/4N3/4K3 w - - 0 1",
    ] {
        let game = Game::new(fen);
        let mover = game.turn;
        for mv in game.get_all_legal_moves() {
            let mut next = game;
            next.make_move(mv);
            assert!(next.is_well_formed());
            assert_eq!(next.board[next.king_square[mover]].get_type(), KING);
            assert!(!generator.is_attacked(&next, next.king_square[mover], mover));
        }
    }
}

#[test]
fn a_pinned_piece_has_no_legal_move() {
    let game = Game::new("4r2k/8/8/8/8/8/4N3/4K3 w - - 0 1");
    assert_eq!(game.get_legal_moves(52).len(), 0);
    assert_eq!(targets(&game.get_legal_moves(60)), vec![51, 53, 59, 61]);
}

#[test]
fn a_copy_taken_before_a_move_keeps_the_position() {
    let mut game = Game::starting_position();
    play(&mut game, &[(52, 36), (12, 28)]);
    let before = game.clone();
    let copy = game;
    for mv in game.get_all_legal_moves() {
        let mut next = game;
        next.make_move(mv);
        assert!(!same_game(&next, &before));
        assert!(same_game(&game, &before));
    }
    game.make_move_from_to(62, 45, EMPTY);
    assert!(!same_game(&game, &before));
    assert!(same_game(&copy, &before));
    assert_eq!(before.to_string(), copy.to_string());
}

#[test]
fn en_passant_removes_the_pawn_beside_and_clears_the_marker() {
    let mut game = Game::starting_position();
    play(&mut game, &[(52, 36), (8, 16), (36, 28)]);
    assert_eq!(game.possible_ep_capture, 64);
    play(&mut game, &[(11, 27)]);
    assert_eq!(game.possible_ep_capture, 27);
    let captures: Vec<Move> =
        game.get_legal_moves(28).into_iter().filter(|m| m.is_ep_capture()).collect();
    assert_eq!(captures.len(), 1);
    assert_eq!(captures[0].get_to(), 19);
    assert!(captures[0].is_capture());
    game.make_move(captures[0]);
    assert_eq!(game.board[27].get_type(), EMPTY);
    assert_eq!(game.board[28].get_type(), EMPTY);
    assert_eq!(game.board[19].get_type(), PAWN);
    assert_eq!(game.board[19].get_color(), WHITE);
    assert_eq!(game.board[11].get_type(), EMPTY);
    assert_eq!(game.possible_ep_capture, 64);
    assert_eq!(game.half_move_clock, 0);
    assert_eq!(game.turn, BLACK);
}

#[test]
fn en_passant_by_black_to_the_other_side() {
    let mut game = Game::starting_position();
    play(&mut game, &[(48, 40), (12, 28), (40, 32), (28, 36), (51, 35)]);
    assert_eq!(game.possible_ep_capture, 35);
    assert!(game.make_move_from_to(36, 43, EMPTY));
    assert_eq!(game.board[35].get_type(), EMPTY);
    assert_eq!(game.board[43].get_type(), PAWN);
    assert_eq!(game.board[43].get_color(), BLACK);
    assert_eq!(game.possible_ep_capture, 64);
}

#[test]
fn en_passant_is_offered_on_the_next_ply_only() {
    let mut game = Game::starting_position();
    play(&mut game, &[(52, 36), (8, 16), (36, 28), (11, 27), (48, 40), (16, 24)]);
    assert_eq!(game.possible_ep_capture, 64);
    assert!(game.get_legal_moves(28).iter().all(|m| !m.is_ep_capture()));
    assert!(!game.make_move_from_to(28, 19, EMPTY));
}

#[test]
fn a_double_push_is_offered_from_the_home_row_only() {
    let mut game = Game::starting_position();
    assert_eq!(targets(&game.get_legal_moves(52)), vec![36, 44]);
    play(&mut game, &[(52, 44), (12, 20)]);
    assert_eq!(targets(&game.get_legal_moves(44)), vec![36]);
    let pushes = game.get_legal_moves(51);
    assert_eq!(pushes.len(), 2);
    assert!(!pushes[0].is_double_pawn_push());
    assert_eq!(pushes[0].get_to(), 43);
    assert!(pushes[1].is_double_pawn_push());
    assert_eq!(pushes[1].get_to(), 35);
}

#[test]
fn a_blocked_pawn_does_not_move() {
    let game = Game::new("4k3/8/8/8/4p3/4P3/8/4K3 w - - 0 1");
    assert_eq!(game.get_legal_moves(44).len(), 0);
    let game = Game::new("4k3/8/8/8/8/4p3/4P3/4K3 w - - 0 1");
    assert_eq!(game.get_legal_moves(52).len(), 0);
}

#[test]
fn pawn_captures_do_not_wrap_round_the_edge() {
    let game = Game::new("4k3/8/8/8/p6p/P6P/8/4K3 w - - 0 1");
    assert_eq!(game.get_legal_moves(40).len(), 0);
    assert_eq!(game.get_legal_moves(47).len(), 0);
    let game = Game::new("4k3/8/8/8/1p4p1/P6P/8/4K3 w - - 0 1");
    assert_eq!(targets(&game.get_legal_moves(40)), vec![32, 33]);
    assert_eq!(targets(&game.get_legal_moves(47)), vec![38, 39]);
}

#[test]
fn both_castles_are_offered() {
    let game = Game::new(CASTLING);
    assert!(game.is_well_formed());
    let castles: Vec<Move> =
        game.get_legal_moves(60).into_iter().filter(|m| m.is_castle()).collect();
    assert_eq!(castles.len(), 2);
    assert!(castles[0].is_queen_castle());
    assert_eq!(castles[0].get_to(), 58);
    assert!(castles[1].is_king_castle());
    assert_eq!(castles[1].get_to(), 62);
    assert_eq!(game.get_legal_moves(60).len(), 7);
}

#[test]
fn castling_on_the_kings_side_carries_the_rook_over() {
    let mut game = Game::new(CASTLING);
    assert!(game.make_move_from_to(60, 62, EMPTY));
    assert_eq!(game.board[62].get_type(), KING);
    assert_eq!(game.board[61].get_type(), ROOK);
    assert_eq!(game.board[61].get_color(), WHITE);
    assert_eq!(game.board[60].get_type(), EMPTY);
    assert_eq!(game.board[63].get_type(), EMPTY);
    assert!(game.board[62].has_moved());
    assert!(game.board[61].has_moved());
    assert_eq!(game.king_square[WHITE], 62);
    assert_eq!(game.half_move_clock, 1);
}

#[test]
fn castling_on_the_queens_side_carries_the_rook_over() {
    let mut game = Game::new("r3k2r/8/8/8/8/8/8/R3K2R b KQkq - 0 1");
    assert!(game.make_move_from_to(4, 2, EMPTY));
    assert_eq!(game.board[2].get_type(), KING);
    assert_eq!(game.board[3].get_type(), ROOK);
    assert_eq!(game.board[3].get_color(), BLACK);
    assert_eq!(game.board[0].get_type(), EMPTY);
    assert_eq!(game.board[1].get_type(), EMPTY);
    assert_eq!(game.board[4].get_type(), EMPTY);
    assert_eq!(game.king_square[BLACK], 2);
    assert_eq!(game.turn, WHITE);
}

#[test]
fn a_king_that_moved_and_came_back_cannot_castle() {
    let mut game = Game::new(CASTLING);
    play(&mut game, &[(60, 52), (4, 12), (52, 60), (12, 4)]);
    assert_eq!(game.board[60].get_type(), KING);
    assert!(game.get_legal_moves(60).iter().all(|m| !m.is_castle()));
    assert!(!game.make_move_from_to(60, 62, EMPTY));
    assert!(!game.make_move_from_to(60, 58, EMPTY));
    play(&mut game, &[(56, 57)]);
    assert!(game.get_legal_moves(4).iter().all(|m| !m.is_castle()));
}

#[test]
fn a_rook_that_moved_and_came_back_disables_its_side_only() {
    let mut game = Game::new(CASTLING);
    play(&mut game, &[(56, 48), (0, 8), (48, 56), (8, 0)]);
    let castles: Vec<Move> =
        game.get_legal_moves(60).into_iter().filter(|m| m.is_castle()).collect();
    assert_eq!(castles.len(), 1);
    assert!(castles[0].is_king_castle());
    play(&mut game, &[(60, 52)]);
    let castles: Vec<Move> =
        game.get_legal_moves(4).into_iter().filter(|m| m.is_castle()).collect();
    assert_eq!(castles.len(), 1);
    assert!(castles[0].is_king_castle());
}

#[test]
fn castling_needs_empty_squares_between() {
    let game = Game::starting_position();
    assert_eq!(game.get_legal_moves(60).len(), 0);
    let game = Game::new("r3k2r/8/8/8/8/8/8/RN2K1NR w KQkq - 0 1");
    assert!(game.get_legal_moves(60).iter().all(|m| !m.is_castle()));
}

#[test]
fn castling_through_an_attacked_square_is_rejected() {
    let game = Game::new("4k3/8/8/8/8/8/5r2/R3K2R w KQ - 0 1");
    assert!(game.is_well_formed());
    let castles: Vec<Move> =
        game.get_legal_moves(60).into_iter().filter(|m| m.is_castle()).collect();
    assert_eq!(castles.len(), 1);
    assert!(castles[0].is_queen_castle());
}

#[test]
fn castling_onto_an_attacked_square_is_rejected() {
    let game = Game::new("4k3/8/8/8/8/8/6r1/R3K2R w KQ - 0 1");
    let castles: Vec<Move> =
        game.get_legal_moves(60).into_iter().filter(|m| m.is_castle()).collect();
    assert_eq!(castles.len(), 1);
    assert!(castles[0].is_queen_castle());
}

#[test]
fn castling_out_of_check_is_rejected() {
    let mut game = Game::new("4k3/8/8/8/8/8/4r3/R3K2R w KQ - 0 1");
    assert_eq!(game.get_game_state(), GameState::Check);
    assert!(game.get_legal_moves(60).iter().all(|m| !m.is_castle()));
    assert!(!game.make_move_from_to(60, 62, EMPTY));
    assert!(!game.make_move_from_to(60, 58, EMPTY));
}

#[test]
fn a_rook_may_castle_over_an_attacked_square() {
    let game = Game::new("1r2k3/8/8/8/8/8/8/R3K2R w KQ - 0 1");
    let castles: Vec<Move> =
        game.get_legal_moves(60).into_iter().filter(|m| m.is_castle()).collect();
    assert_eq!(castles.len(), 2);
}

#[test]
fn a_hundred_quiet_plies_are_a_draw() {
    let mut game = Game::starting_position();
    for round in 0..25 {
        play(&mut game, &[(62, 45), (6, 21), (45, 62)]);
        assert_eq!(game.half_move_clock, 4 * round + 3);
        assert_eq!(game.get_game_state(), GameState::InProgress);
        play(&mut game, &[(21, 6)]);
    }
    assert_eq!(game.half_move_clock, 100);
    assert_eq!(game.get_game_state(), GameState::DrawBy50MoveRule);
    play(&mut game, &[(62, 45)]);
    assert_eq!(game.half_move_clock, 101);
    assert_eq!(game.get_game_state(), GameState::DrawBy50MoveRule);
    play(&mut game, &[(12, 28)]);
    assert_eq!(game.half_move_clock, 0);
    assert_eq!(game.get_game_state(), GameState::InProgress);
}

#[test]
fn the_clock_reaches_a_hundred_from_ninety_nine() {
    let mut game = Game::new("4k3/8/8/8/8/8/8/R3K3 w - - 99 1");
    assert_eq!(game.half_move_clock, 99);
    assert_eq!(game.get_game_state(), GameState::InProgress);
    play(&mut game, &[(56, 48)]);
    assert_eq!(game.half_move_clock, 100);
    assert_eq!(game.get_game_state(), GameState::DrawBy50MoveRule);
}

#[test]
fn a_capture_restarts_the_clock() {
    let mut game = Game::new("4k3/8/8/8/8/8/r7/R3K3 w - - 42 1");
    play(&mut game, &[(56, 48)]);
    assert_eq!(game.half_move_clock, 0);
    assert_eq!(game.board[48].get_color(), WHITE);
    assert_eq!(game.board[48].get_type(), ROOK);
}

#[test]
fn a_pawn_move_restarts_the_clock() {
    let mut game = Game::new("4k3/8/8/8/8/8/1P6/4K3 w - - 42 1");
    play(&mut game, &[(60, 59)]);
    assert_eq!(game.half_move_clock, 43);
    play(&mut game, &[(4, 5), (49, 41)]);
    assert_eq!(game.half_move_clock, 0);
}

#[test]
fn checkmate_comes_before_the_draw_by_the_clock() {
    let game = Game::new("R5k1/5ppp/8/8/8/8/8/4K3 b - - 100 1");
    assert_eq!(game.get_game_state(), GameState::Checkmate);
}

#[test]
fn two_lone_kings_are_a_draw() {
    let game = Game::new("4k3/8/8/8/8/8/8/4K3 w - - 0 1");
    assert_eq!(game.get_game_state(), GameState::InsufficientMaterial);
    let game = Game::new("8/8/3k4/8/8/4K3/8/8 b - - 0 1");
    assert!(game.is_well_formed());
    assert_eq!(game.get_game_state(), GameState::InsufficientMaterial);
}

#[test]
fn king_and_bishop_against_king_are_a_draw() {
    let game = Game::new("4k3/8/8/8/8/8/8/2B1K3 w - - 0 1");
    assert_eq!(game.get_game_state(), GameState::InsufficientMaterial);
    let game = Game::new("4kb2/8/8/8/8/8/8/4K3 w - - 0 1");
    assert_eq!(game.get_game_state(), GameState::InsufficientMaterial);
}

#[test]
fn king_and_knight_against_king_and_bishop_are_a_draw() {
    let game = Game::new("4kb2/8/8/8/8/8/8/1N2K3 w - - 0 1");
    assert_eq!(game.get_game_state(), GameState::InsufficientMaterial);
}

#[test]
fn king_and_two_knights_against_king_are_a_draw() {
    let game = Game::new("4k3/8/8/8/8/8/8/1N2K1N1 w - - 0 1");
    assert_eq!(game.get_game_state(), GameState::InsufficientMaterial);
}

#[test]
fn king_and_two_bishops_against_king_are_no_draw() {
    let game = Game::new("4k3/8/8/8/8/8/8/2B1KB2 w - - 0 1");
    assert_eq!(game.get_game_state(), GameState::InProgress);
}

#[test]
fn king_and_pawn_or_rook_against_king_are_no_draw() {
    let game = Game::new("4k3/8/8/8/8/8/4P3/4K3 w - - 0 1");
    assert_eq!(game.get_game_state(), GameState::InProgress);
    let game = Game::new("4k3/8/8/8/8/8/8/R3K3 w - - 0 1");
    assert_eq!(game.get_game_state(), GameState::InProgress);
    let game = Game::new("4k3/8/8/8/8/8/8/1NB1K3 w - - 0 1");
    assert_eq!(game.get_game_state(), GameState::InProgress);
}

#[test]
fn insufficient_material_comes_before_the_draw_by_the_clock() {
    let game = Game::new("4k3/8/8/8/8/8/8/4K3 w - - 100 1");
    assert_eq!(game.get_game_state(), GameState::InsufficientMaterial);
}

#[test]
fn fools_mate_is_checkmate() {
    let mut game = Game::starting_position();
    play(&mut game, &[(53, 45), (12, 28), (54, 38)]);
    assert_eq!(game.get_game_state(), GameState::InProgress);
    play(&mut game, &[(3, 39)]);
    assert_eq!(game.turn, WHITE);
    assert_eq!(game.get_all_legal_moves().len(), 0);
    assert_eq!(game.get_game_state(), GameState::Checkmate);
    assert!(!game.make_move_from_to(52, 44, EMPTY));
}

#[test]
fn a_check_that_can_be_met_is_check() {
    let mut game = Game::starting_position();
    play(&mut game, &[(52, 36), (13, 29), (59, 31)]);
    assert_eq!(game.get_game_state(), GameState::Check);
    assert_eq!(game.get_all_legal_moves().len(), 1);
    assert_eq!(game.get_all_legal_moves()[0].get_from(), 14);
    assert_eq!(game.get_all_legal_moves()[0].get_to(), 22);
}

#[test]
fn no_move_and_no_check_is_stalemate() {
    let game = Game::new("7k/5Q2/6K1/8/8/8/8/8 b - - 0 1");
    assert!(game.is_well_formed());
    assert_eq!(game.get_all_legal_moves().len(), 0);
    assert_eq!(game.get_game_state(), GameState::Stalemate);
}

#[test]
fn the_starting_position_is_in_progress() {
    assert_eq!(Game::starting_position().get_game_state(), GameState::InProgress);
}

#[test]
fn a_pawn_on_the_seventh_row_promotes_in_four_ways() {
    let game = Game::new("8/1P6/8/8/8/8/8/k6K w - - 0 1");
    assert!(game.is_well_formed());
    let moves = game.get_legal_moves(9);
    assert_eq!(moves.len(), 4);
    let flags: Vec<usize> = moves.iter().map(|m| m.get_flags()).collect();
    assert_eq!(flags, vec![KNIGHT_PROMOTION, BISHOP_PROMOTION, ROOK_PROMOTION, QUEEN_PROMOTION]);
    assert!(moves.iter().all(|m| m.is_promotion() && !m.is_capture() && m.get_to() == 1));
}

#[test]
fn each_promotion_gives_its_piece() {
    for (code, kind) in [
        (KNIGHT_PROMOTION, KNIGHT),
        (BISHOP_PROMOTION, BISHOP),
        (ROOK_PROMOTION, ROOK),
        (QUEEN_PROMOTION, QUEEN),
    ] {
        let mut game = Game::new("8/1P6/8/8/8/8/8/k6K w - - 0 1");
        assert!(game.make_move_from_to(9, 1, code));
        assert_eq!(game.board[1].get_type(), kind);
        assert_eq!(game.board[1].get_color(), WHITE);
        assert!(game.board[1].has_moved());
        assert_eq!(game.board[9].get_type(), EMPTY);
        assert_eq!(game.half_move_clock, 0);
    }
}

#[test]
fn a_promotion_with_capture_gives_its_piece() {
    let mut game = Game::new("n7/1P6/8/8/8/8/8/k6K w - - 0 1");
    let moves = game.get_legal_moves(9);
    assert_eq!(moves.len(), 8);
    assert_eq!(moves.iter().filter(|m| m.is_capture()).count(), 4);
    assert!(moves.iter().take(4).all(|m| m.is_capture() && m.get_to() == 0));
    assert!(moves.iter().skip(4).all(|m| !m.is_capture() && m.get_to() == 1));
    assert!(game.make_move_from_to(9, 0, ROOK_PROMOTION));
    assert_eq!(game.board[0].get_type(), ROOK);
    assert_eq!(game.board[0].get_color(), WHITE);
    assert_eq!(game.board[1].get_type(), EMPTY);
    assert_eq!(game.board[9].get_type(), EMPTY);
}

#[test]
fn a_promotion_needs_its_code() {
    let mut game = Game::new("8/1P6/8/8/8/8/8/k6K w - - 0 1");
    let before = game;
    assert!(!game.make_move_from_to(9, 1, EMPTY));
    assert!(!game.make_move_from_to(9, 1, QUEEN));
    assert!(same_game(&game, &before));
    assert!(game.make_move_from_to(9, 1, QUEEN_PROMOTION));
}

#[test]
fn black_promotes_on_the_last_row() {
    let mut game = Game::new("7k/8/8/8/8/8/p7/7K b - - 0 1");
    assert_eq!(game.get_legal_moves(48).len(), 4);
    assert!(game.make_move_from_to(48, 56, KNIGHT_PROMOTION));
    assert_eq!(game.board[56].get_type(), KNIGHT);
    assert_eq!(game.board[56].get_color(), BLACK);
}

#[test]
fn an_illegal_request_changes_nothing() {
    let mut game = Game::starting_position();
    let before = game;
    assert!(!game.make_move_from_to(52, 28, EMPTY));
    assert!(!game.make_move_from_to(12, 28, EMPTY));
    assert!(!game.make_move_from_to(30, 22, EMPTY));
    assert!(!game.make_move_from_to(60, 52, EMPTY));
    assert!(!game.make_move_from_to(100, 200, EMPTY));
    assert!(same_game(&game, &before));
}

#[test]
fn a_quiet_request_ignores_the_promotion_code() {
    let mut game = Game::starting_position();
    assert!(game.make_move_from_to(52, 36, QUEEN_PROMOTION));
    assert_eq!(game.board[36].get_type(), PAWN);
}

#[test]
fn moves_are_listed_by_square_and_direction() {
    let game = Game::starting_position();
    let moves = game.get_all_legal_moves();
    let listed: Vec<(usize, usize)> = moves.iter().map(|m| (m.get_from(), m.get_to())).collect();
    let mut expected: Vec<(usize, usize)> = Vec::new();
    for column in 0..8 {
        expected.push((48 + column, 40 + column));
        expected.push((48 + column, 32 + column));
    }
    expected.extend([(57, 40), (57, 42), (62, 45), (62, 47)]);
    assert_eq!(listed, expected);
}

#[test]
fn legal_moves_of_one_square() {
    let game = Game::starting_position();
    assert_eq!(targets(&game.get_legal_moves(62)), vec![45, 47]);
    assert_eq!(game.get_legal_moves(27).len(), 0);
    assert_eq!(game.get_legal_moves(12).len(), 0);
    assert_eq!(game.get_legal_moves(63).len(), 0);
}

#[test]
fn sliding_pieces_stop_at_the_first_piece() {
    let game = Game::new("4k3/8/8/1p6/8/1R2P3/8/4K3 w - - 0 1");
    let moves = game.get_legal_moves(41);
    assert_eq!(targets(&moves), vec![25, 33, 40, 42, 43, 49, 57]);
    let captures: Vec<usize> = moves.iter().filter(|m| m.is_capture()).map(|m| m.get_to()).collect();
    assert_eq!(captures, vec![25]);
}

#[test]
fn a_knight_in_the_corner_has_two_moves() {
    let game = Game::new("4k3/8/8/8/8/8/8/N3K3 w - - 0 1");
    assert_eq!(targets(&game.get_legal_moves(56)), vec![41, 50]);
    let game = Game::new("4k2N/8/8/8/8/8/8/4K3 w - - 0 1");
    assert_eq!(targets(&game.get_legal_moves(7)), vec![13, 22]);
}

#[test]
fn attacks_by_each_kind() {
    let generator = MoveGenerator::new();
    let game = Game::new("4k3/8/8/3n4/8/8/8/4K3 w - - 0 1");
    for sq in [10, 12, 17, 21, 33, 37, 42, 44] {
        assert!(generator.is_attacked(&game, sq, WHITE), "knight on {}", sq);
    }
    assert!(!generator.is_attacked(&game, 26, WHITE));
    assert!(!generator.is_attacked(&game, 42, BLACK));
    let game = Game::new("4k3/8/8/3b4/8/5P2/8/4K3 w - - 0 1");
    assert!(generator.is_attacked(&game, 36, WHITE));
    assert!(generator.is_attacked(&game, 45, WHITE));
    assert!(!generator.is_attacked(&game, 54, WHITE));
    assert!(generator.is_attacked(&game, 0, WHITE));
    assert!(!generator.is_attacked(&game, 28, WHITE));
    let game = Game::new("4k3/8/8/3q4/8/8/8/4K3 w - - 0 1");
    assert!(generator.is_attacked(&game, 59, WHITE));
    assert!(generator.is_attacked(&game, 24, WHITE));
    assert!(generator.is_attacked(&game, 63, WHITE));
    assert!(!generator.is_attacked(&game, 60, WHITE));
    assert!(generator.is_attacked(&game, 5, BLACK) == false);
    assert!(generator.is_attacked(&game, 51, BLACK));
}

#[test]
fn pawns_attack_forward_and_aside_without_wrapping() {
    let generator = MoveGenerator::new();
    let game = Game::new("4k3/8/8/8/6p1/p7/8/4K3 w - - 0 1");
    assert!(generator.is_attacked(&game, 47, WHITE));
    assert!(generator.is_attacked(&game, 45, WHITE));
    assert!(generator.is_attacked(&game, 49, WHITE));
    assert!(!generator.is_attacked(&game, 46, WHITE));
    assert!(!generator.is_attacked(&game, 48, WHITE));
    assert!(!generator.is_attacked(&game, 55, WHITE));
    assert!(!generator.is_attacked(&game, 39, WHITE));
    assert!(!generator.is_attacked(&game, 31, WHITE));
    let mut game = Game::new("4k3/8/8/8/8/8/8/4K3 b - - 0 1");
    game.board[24] = Piece::new(PAWN, WHITE, 1);
    game.board[39] = Piece::new(PAWN, WHITE, 1);
    assert!(generator.is_attacked(&game, 17, BLACK));
    assert!(generator.is_attacked(&game, 30, BLACK));
    assert!(!generator.is_attacked(&game, 23, BLACK));
    assert!(!generator.is_attacked(&game, 24, BLACK));
    assert!(!generator.is_attacked(&game, 16, BLACK));
    assert!(!generator.is_attacked(&game, 32, BLACK));
}

#[test]
fn the_king_square_follows_the_king() {
    let mut game = Game::starting_position();
    assert_eq!(game.king_square, [60, 4]);
    play(&mut game, &[(52, 36), (12, 28), (60, 52), (4, 12)]);
    assert_eq!(game.king_square, [52, 12]);
    assert_eq!(game.board[52].get_type(), KING);
    assert_eq!(game.board[12].get_type(), KING);
}

#[test]
fn the_board_as_text() {
    let game = Game::starting_position();
    let expected = "BR BN BB BQ BK BB BN BR \n\
                    BP BP BP BP BP BP BP BP \n\
                    .. .. .. .. .. .. .. .. \n\
                    .. .. .. .. .. .. .. .. \n\
                    .. .. .. .. .. .. .. .. \n\
                    .. .. .. .. .. .. .. .. \n\
                    WP WP WP WP WP WP WP WP \n\
                    WR WN WB WQ WK WB WN WR ";
    assert_eq!(game.to_string(), expected);
    let mut game = game;
    play(&mut game, &[(52, 36)]);
    assert_eq!(&game.to_string()[24 * 4 + 4..24 * 4 + 4 + 24], ".. .. .. .. WP .. .. .. ");
}

#[test]
fn well_formed_positions() {
    assert!(Game::starting_position().is_well_formed());
    let mut game = Game::starting_position();
    game.turn = 2;
    assert!(!game.is_well_formed());
    let mut game = Game::starting_position();
    game.king_square[1] = 64;
    assert!(!game.is_well_formed());
    let mut game = Game::starting_position();
    game.board[0] = game.board[8];
    assert!(!game.is_well_formed());
    let mut game = Game::starting_position();
    game.possible_ep_capture = 36;
    assert!(!game.is_well_formed());
    let mut game = Game::starting_position();
    game.board[30] = game.board[60];
    assert!(!game.is_well_formed());
    let mut game = Game::starting_position();
    play(&mut game, &[(52, 36)]);
    assert!(game.is_well_formed());
    game.turn = WHITE;
    assert!(!game.is_well_formed());
}

#[test]
fn a_move_on_a_copy_leaves_the_game_as_it_is() {
    let game = Game::starting_position();
    let before = game;
    for mv in game.get_all_legal_moves() {
        let next = game.after_move(mv);
        assert!(same_game(&game, &before));
        assert_eq!(next.turn, BLACK);
        assert_eq!(next.board[mv.get_from()].get_type(), EMPTY);
        assert_eq!(next.board[mv.get_to()].get_type(), game.board[mv.get_from()].get_type());
        assert!(next.board[mv.get_to()].has_moved());
        let mut made = game;
        made.make_move(mv);
        assert!(same_game(&made, &next));
    }
}

#[test]
fn sound_positions() {
    assert!(Game::starting_position().is_sound());
    let mut game = Game::starting_position();
    play(&mut game, &[(53, 45), (12, 28), (54, 38), (3, 39)]);
    assert!(game.is_sound());
    assert!(Game::new("7k/5Q2/6K1/8/8/8/8/8 b - - 0 1").is_sound());
    // The side that has just moved stands in check.
    assert!(!Game::new("4k3/8/8/8/8/8/4r3/4K3 b - - 0 1").is_sound());
    assert!(Game::new("4k3/8/8/8/8/8/4r3/4K3 w - - 0 1").is_sound());
    // No king where the game has it.
    assert!(!Game::new("8/8/8/8/8/8/8/4K3 w - - 0 1").is_sound());
    let mut game = Game::starting_position();
    game.king_square[0] = 59;
    assert!(game.is_well_formed());
    assert!(!game.is_sound());
}

#[test]
fn legal_moves_keep_positions_sound() {
    for fen in [
        "r3k2r/p1ppqpb1/bn2pnp1/3PN3/1p2P3/2N2Q1p/PPPBBPPP/R3K2R w KQkq - 0 1",
        "8/2p5/3p4/KP5r/1R3p1k/8/4P1P1/8 w - - 0 1",
        "r3k2r/Pppp1ppp/1b3nbN/nP6/BBP1P3/q4N2/Pp1P2PP/R2Q1RK1 w kq - 0 1",
    ] {
        let game = Game::new(fen);
        assert!(game.is_sound());
        for mv in game.get_all_legal_moves() {
            let next = game.after_move(mv);
            assert!(next.is_sound());
            for reply in next.get_all_legal_moves() {
                assert!(next.after_move(reply).is_sound());
            }
        }
    }
}

#[test]
fn an_attacked_square_is_one_where_a_capture_is_possible() {
    let generator = MoveGenerator::new();
    for fen in [
        "r3k2r/p1ppqpb1/bn2pnp1/3PN3/1p2P3/2N2Q1p/PPPBBPPP/R3K2R b KQkq - 0 1",
        "8/2p5/3p4/KP5r/1R3p1k/8/4P1P1/8 b - - 0 1",
        "rnbq1k1r/pp1Pbppp/2p5/8/2B5/8/PPP1NnPP/RNBQK2R b KQ - 1 8",
    ] {
        let game = Game::new(fen);
        for sq in 0..64 {
            if game.board[sq].get_type() == EMPTY || game.board[sq].get_color() != WHITE {
                continue;
            }
            let mut captured = false;
            for from in 0..64 {
                for mv in generator.generate_pseudo_legal_moves(&game, from) {
                    if mv.get_to() == sq && mv.is_capture() && !mv.is_ep_capture() {
                        captured = true;
                    }
                }
            }
            assert_eq!(generator.is_attacked(&game, sq, WHITE), captured, "square {}", sq);
        }
    }
}
