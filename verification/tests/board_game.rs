use bench_suite::board_game::{
    choose_best_move, display_step, encode_board, minimax, mix_seed, opponent, play_perfect_game,
    seed_from_time, Board, Cell, GameDisplay, SimpleRng,
};
use std::collections::HashMap;

#[test]
fn board_game_always_tie() {
    let mut board = Board::new();
    for seed in 0..32 {
        play_perfect_game(&mut board, Some(seed));
        assert!(
            board.is_tie(),
            "Perfect play should always result in a draw: {:?}",
            board.cells
        );
    }
}

#[test]
fn test_board_initialization() {
    let board = Board::new();
    for cell in &board.cells {
        assert!(matches!(cell, Cell::Empty));
    }
}

#[test]
fn test_board_is_tie() {
    let mut board = Board::new();
    assert!(!board.is_tie());

    // Create a tie situation (no winner, all cells filled)
    board.cells = [
        Cell::X,
        Cell::O,
        Cell::X,
        Cell::X,
        Cell::O,
        Cell::O,
        Cell::O,
        Cell::X,
        Cell::X,
    ];
    assert!(board.is_tie());
}

#[test]
fn test_winner_rows() {
    let mut board = Board::new();
    board.cells[0] = Cell::X;
    board.cells[1] = Cell::X;
    board.cells[2] = Cell::X;
    assert!(matches!(board.winner(), Some(Cell::X)));
}

#[test]
fn test_winner_columns() {
    let mut board = Board::new();
    board.cells[0] = Cell::O;
    board.cells[3] = Cell::O;
    board.cells[6] = Cell::O;
    assert!(matches!(board.winner(), Some(Cell::O)));
}

#[test]
fn test_winner_diagonals() {
    let mut board = Board::new();
    board.cells[0] = Cell::X;
    board.cells[4] = Cell::X;
    board.cells[8] = Cell::X;
    assert!(matches!(board.winner(), Some(Cell::X)));

    let mut board2 = Board::new();
    board2.cells[2] = Cell::O;
    board2.cells[4] = Cell::O;
    board2.cells[6] = Cell::O;
    assert!(matches!(board2.winner(), Some(Cell::O)));
}

#[test]
fn test_no_winner() {
    let board = Board::new();
    assert!(board.winner().is_none());

    // Incomplete game
    let mut board2 = Board::new();
    board2.cells[0] = Cell::X;
    board2.cells[1] = Cell::O;
    assert!(board2.winner().is_none());
}

#[test]
fn test_simplerng_deterministic() {
    let mut rng1 = SimpleRng::new(42);
    let mut rng2 = SimpleRng::new(42);

    // Same seed should produce same sequence
    for _ in 0..10 {
        assert_eq!(rng1.next(), rng2.next());
    }
}

#[test]
fn test_simplerng_different_seeds() {
    let mut rng1 = SimpleRng::new(1);
    let mut rng2 = SimpleRng::new(2);

    // Different seeds should produce different sequences
    let val1 = rng1.next();
    let val2 = rng2.next();
    assert_ne!(val1, val2);
}

#[test]
fn test_board_available_moves() {
    let mut board = Board::new();
    let moves = board.available_moves();
    assert_eq!(moves.len(), 9);

    board.cells[0] = Cell::X;
    let moves = board.available_moves();
    assert_eq!(moves.len(), 8);
    assert!(!moves.contains(&0));
}

#[test]
fn test_board_clone() {
    let mut board = Board::new();
    board.cells[4] = Cell::X;
    let cloned = board.clone();

    assert!(matches!(cloned.cells[4], Cell::X));
}

#[test]
fn test_cell_to_char() {
    let board = Board::new();
    assert_eq!(board.cell_to_char(0), ' ');

    let mut board2 = Board::new();
    board2.cells[0] = Cell::X;
    board2.cells[1] = Cell::O;
    assert_eq!(board2.cell_to_char(0), 'X');
    assert_eq!(board2.cell_to_char(1), 'O');
}

fn board_of(rows: [&str; 3]) -> Board {
    let mut board = Board::new();
    for (r, row) in rows.iter().enumerate() {
        for (c, ch) in row.chars().enumerate() {
            board.cells[r * 3 + c] = match ch {
                'X' => Cell::X,
                'O' => Cell::O,
                _ => Cell::Empty,
            };
        }
    }
    board
}

#[test]
fn simplerng_first_draws_are_the_lcg_steps() {
    let mut rng = SimpleRng::new(42);
    assert_eq!(rng.state, 43);
    assert_eq!(rng.next(), 16846135634367339998);
    assert_eq!(rng.next(), 11679963896090501973);
    assert_eq!(rng.state, 11679963896090501973);
}

#[test]
fn simplerng_seed_gets_its_low_bit_set() {
    assert_eq!(SimpleRng::new(0).state, 1);
    assert_eq!(SimpleRng::new(7).state, 7);
    assert_eq!(SimpleRng::new(u64::MAX - 1).state, u64::MAX);
}

#[test]
fn available_moves_lists_empty_squares_in_order() {
    let board = board_of(["X O", " X ", "O  "]);
    assert_eq!(board.available_moves(), vec![1, 3, 5, 7, 8]);
    let full = board_of(["XOX", "XOO", "OXX"]);
    assert!(full.available_moves().is_empty());
}

#[test]
fn winner_takes_the_first_complete_line() {
    // Both players hold a row: the upper row is found first.
    let board = board_of(["OOO", "XXX", "   "]);
    assert!(matches!(board.winner(), Some(Cell::O)));
    let board = board_of(["XXX", "OOO", "   "]);
    assert!(matches!(board.winner(), Some(Cell::X)));
}

#[test]
fn is_tie_needs_a_full_board_without_a_line() {
    assert!(!board_of(["XXX", "OOX", "OXO"]).is_tie());
    assert!(!board_of(["XOX", "XOO", "OX "]).is_tie());
}

#[test]
fn with_move_writes_one_square() {
    let board = board_of(["X  ", "   ", "   "]);
    let next = board.with_move(4, Cell::O);
    assert!(matches!(next.cells[0], Cell::X));
    assert!(matches!(next.cells[4], Cell::O));
    assert_eq!(next.available_moves().len(), 7);
    assert_eq!(board.available_moves().len(), 8);
}

#[test]
fn opponent_alternates() {
    assert!(matches!(opponent(Cell::X), Cell::O));
    assert!(matches!(opponent(Cell::O), Cell::X));
    assert!(matches!(opponent(Cell::Empty), Cell::X));
}

#[test]
fn encode_board_is_ternary_then_mover() {
    let empty = Board::new();
    assert_eq!(encode_board(&empty, Cell::X), 0);
    assert_eq!(encode_board(&empty, Cell::O), 1);
    assert_eq!(encode_board(&empty, Cell::Empty), 0);
    let last_x = board_of(["   ", "   ", "  X"]);
    assert_eq!(encode_board(&last_x, Cell::X), 2);
    let first_o = board_of(["O  ", "   ", "   "]);
    assert_eq!(encode_board(&first_o, Cell::X), 2 * 6561 * 2);
    let all_o = board_of(["OOO", "OOO", "OOO"]);
    assert_eq!(encode_board(&all_o, Cell::O), 39365);
}

#[test]
fn encode_board_tells_positions_apart() {
    let mut seen = std::collections::HashSet::new();
    for a in 0..9 {
        for b in 0..9 {
            if a == b {
                continue;
            }
            let board = Board::new().with_move(a, Cell::X).with_move(b, Cell::O);
            assert!(seen.insert(encode_board(&board, Cell::X)));
            assert!(seen.insert(encode_board(&board, Cell::O)));
        }
    }
}

#[test]
fn minimax_values_known_positions() {
    let mut cache: HashMap<u32, i8> = HashMap::new();
    // The empty board is a draw.
    assert_eq!(minimax(&Board::new(), Cell::X, &mut cache), 0);
    // A finished line is a win for its owner and a loss for the other.
    let won = board_of(["XXX", "OO ", "   "]);
    assert_eq!(minimax(&won, Cell::X, &mut cache), 1);
    assert_eq!(minimax(&won, Cell::O, &mut cache), -1);
    // X to move completes the top row.
    let winning = board_of(["XX ", "OO ", "   "]);
    assert_eq!(minimax(&winning, Cell::X, &mut cache), 1);
    // O to move faces two threats and loses.
    let fork = board_of(["X X", " O ", "X O"]);
    assert_eq!(minimax(&fork, Cell::O, &mut cache), -1);
    // A full board without a line is a draw.
    let tie = board_of(["XOX", "XOO", "OXX"]);
    assert_eq!(minimax(&tie, Cell::X, &mut cache), 0);
}

#[test]
fn minimax_does_not_depend_on_what_is_cached() {
    let board = board_of(["X  ", " O ", "   "]);
    let mut fresh: HashMap<u32, i8> = HashMap::new();
    let first = minimax(&board, Cell::X, &mut fresh);
    let filled = fresh.len();
    assert!(filled > 0);
    let again = minimax(&board, Cell::X, &mut fresh);
    assert_eq!(first, again);
    let mut other: HashMap<u32, i8> = HashMap::new();
    minimax(&Board::new(), Cell::X, &mut other);
    assert_eq!(minimax(&board, Cell::X, &mut other), first);
}

#[test]
fn choose_best_move_prefers_the_first_draw() {
    let mut cache: HashMap<u32, i8> = HashMap::new();
    // On the empty board every square draws: the first is taken.
    assert_eq!(choose_best_move(&Board::new(), Cell::X, &mut cache), Some(0));
    // X can win on square 2, and nothing before it is safe for X but square 2.
    let board = board_of(["XX ", "OO ", "   "]);
    assert_eq!(choose_best_move(&board, Cell::X, &mut cache), Some(2));
    // O must block on square 2.
    let board = board_of(["XX ", " O ", "   "]);
    assert_eq!(choose_best_move(&board, Cell::O, &mut cache), Some(2));
    // Lost whatever O plays: the first empty square.
    let fork = board_of(["X X", " O ", "X O"]);
    assert_eq!(choose_best_move(&fork, Cell::O, &mut cache), Some(1));
    // No square left.
    let full = board_of(["XOX", "XOO", "OXX"]);
    assert_eq!(choose_best_move(&full, Cell::X, &mut cache), None);
}

#[test]
fn play_perfect_game_depends_on_the_seed_alone() {
    let mut first = Board::new();
    play_perfect_game(&mut first, Some(42));
    let mut second = board_of(["XOX", "   ", "OOO"]);
    play_perfect_game(&mut second, Some(42));
    assert_eq!(format!("{:?}", first.cells), format!("{:?}", second.cells));
    assert!(first.available_moves().is_empty());
    let xs = first.cells.iter().filter(|c| matches!(c, Cell::X)).count();
    assert_eq!(xs, 5);
}

#[test]
fn play_perfect_game_opens_on_the_drawn_square() {
    // Seed 42 draws 16846135634367339998, which is 5 modulo 9; the replies
    // never overwrite a square, so X stays there.
    let mut board = Board::new();
    play_perfect_game(&mut board, Some(42));
    assert!(matches!(board.cells[5], Cell::X));
}

#[test]
fn play_perfect_game_without_a_seed_fills_the_board() {
    let mut board = Board::new();
    play_perfect_game(&mut board, None);
    assert!(board.available_moves().is_empty());
    assert!(board.is_tie());
}

#[test]
fn mix_seed_is_the_xor_of_its_parts() {
    assert_eq!(mix_seed(1, 2, 4), 7);
    assert_eq!(mix_seed(0xdeadbeef, 0x12345678, 7), 3432638608);
    assert_eq!(mix_seed(5, 5, 9), 9);
}

#[test]
fn seed_from_time_returns() {
    let a = seed_from_time(1);
    let b = seed_from_time(1);
    // Two readings of a running clock.
    let _ = (a, b);
}

#[test]
fn display_step_shows_boards_and_dots() {
    assert_eq!(display_step(1), GameDisplay::Board);
    assert_eq!(display_step(2), GameDisplay::Nothing);
    assert_eq!(display_step(20), GameDisplay::Dot);
    assert_eq!(display_step(1980), GameDisplay::Dot);
    assert_eq!(display_step(2000), GameDisplay::Board);
    assert_eq!(display_step(2001), GameDisplay::Nothing);
    assert_eq!(display_step(10_000_000), GameDisplay::Board);
    assert_eq!(display_step(0), GameDisplay::Board);
}

#[test]
fn every_opening_is_a_draw_and_ends_in_a_tie() {
    let mut cache: HashMap<u32, i8> = HashMap::new();
    for square in 0..9 {
        let opening = Board::new().with_move(square, Cell::X);
        assert_eq!(minimax(&opening, Cell::O, &mut cache), 0);
    }
    for square in 0..9 {
        let mut board = Board::new().with_move(square, Cell::X);
        let mut player = Cell::O;
        while let Some(pos) = choose_best_move(&board, player, &mut cache) {
            board = board.with_move(pos, player);
            player = opponent(player);
        }
        assert!(board.is_tie());
    }
}

#[test]
fn minimax_keeps_what_it_remembered() {
    let mut cache: HashMap<u32, i8> = HashMap::new();
    let board = board_of(["X  ", " O ", "   "]);
    minimax(&board, Cell::X, &mut cache);
    let before = cache.clone();
    assert!(before.contains_key(&encode_board(&board, Cell::X)));
    minimax(&Board::new(), Cell::X, &mut cache);
    for (key, value) in &before {
        assert_eq!(cache.get(key), Some(value));
    }
}
