use chess::{Game, Move};

const START: &str = "rnbqkbnr/pppppppp/8/8/8/8/PPPPPPPP/RNBQKBNR w KQkq - 0 1";

fn perft(game: &Game, depth: u32) -> u64 {
    let moves: Vec<Move> = game.get_all_legal_moves();
    if depth == 1 {
        return moves.len() as u64;
    }
    let mut nodes = 0;
    for mv in moves {
        let mut next = *game;
        next.make_move(mv);
        nodes += perft(&next, depth - 1);
    }
    nodes
}

#[test]
fn starting_position_has_twenty_moves() {
    let game = Game::starting_position();
    assert_eq!(game.get_all_legal_moves().len(), 20);
    assert_eq!(perft(&game, 1), 20);
}

#[test]
fn black_has_twenty_replies_to_every_first_move() {
    let game = Game::starting_position();
    for mv in game.get_all_legal_moves() {
        let mut next = game;
        next.make_move(mv);
        assert_eq!(next.turn, chess::BLACK);
        assert_eq!(next.get_all_legal_moves().len(), 20);
    }
}

#[test]
fn perft_depth_two_is_400() {
    assert_eq!(perft(&Game::starting_position(), 2), 400);
}

#[test]
fn perft_depth_three_is_8902() {
    assert_eq!(perft(&Game::starting_position(), 3), 8902);
}

#[test]
fn perft_from_parsed_start_matches() {
    let game = Game::new(START);
    assert_eq!(perft(&game, 1), 20);
    assert_eq!(perft(&game, 2), 400);
}

#[test]
fn perft_of_castling_position() {
    // Both sides may castle on both sides.
    let game = Game::new("r3k2r/8/8/8/8/8/8/R3K2R w KQkq - 0 1");
    assert_eq!(perft(&game, 1), 26);
    assert_eq!(perft(&game, 2), 568);
}

#[test]
fn perft_of_a_middle_game_with_all_special_moves() {
    let game = Game::new("r3k2r/p1ppqpb1/bn2pnp1/3PN3/1p2P3/2N2Q1p/PPPBBPPP/R3K2R w KQkq - 0 1");
    assert!(game.is_well_formed());
    assert_eq!(perft(&game, 1), 48);
    assert_eq!(perft(&game, 2), 2039);
    assert_eq!(perft(&game, 3), 97862);
}

#[test]
fn perft_of_an_endgame_with_pins_and_en_passant() {
    let game = Game::new("8/2p5/3p4/KP5r/1R3p1k/8/4P1P1/8 w - - 0 1");
    assert!(game.is_well_formed());
    assert_eq!(perft(&game, 1), 14);
    assert_eq!(perft(&game, 2), 191);
    assert_eq!(perft(&game, 3), 2812);
    assert_eq!(perft(&game, 4), 43238);
}

#[test]
fn perft_of_a_position_with_promotions() {
    let game = Game::new("r3k2r/Pppp1ppp/1b3nbN/nP6/BBP1P3/q4N2/Pp1P2PP/R2Q1RK1 w kq - 0 1");
    assert!(game.is_well_formed());
    assert_eq!(perft(&game, 1), 6);
    assert_eq!(perft(&game, 2), 264);
    assert_eq!(perft(&game, 3), 9467);
}

#[test]
fn perft_of_a_position_with_a_pawn_on_the_seventh_row() {
    let game = Game::new("rnbq1k1r/pp1Pbppp/2p5/8/2B5/8/PPP1NnPP/RNBQK2R w KQ - 1 8");
    assert!(game.is_well_formed());
    assert_eq!(perft(&game, 1), 44);
    assert_eq!(perft(&game, 2), 1486);
    assert_eq!(perft(&game, 3), 62379);
}
