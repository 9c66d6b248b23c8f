use enum_iterator::IntoEnumIterator;
use multiagent::{expectimax, minimax, ChanceUtility, ExpectimaxAgentType, GameState};

#[derive(Copy, Clone, PartialEq, Eq, Debug)]
enum Player {
    X,
    O,
}

impl Player {
    fn other(self) -> Self {
        match self {
            Player::X => Player::O,
            Player::O => Player::X,
        }
    }
}

#[derive(Copy, Clone, PartialEq, Eq, Debug)]
enum Position {
    TopLeft,
    TopCenter,
    TopRight,
    CenterLeft,
    Center,
    CenterRight,
    BottomLeft,
    BottomCenter,
    BottomRight,
}

const POSITIONS: [Position; 9] = [
    Position::TopLeft,
    Position::TopCenter,
    Position::TopRight,
    Position::CenterLeft,
    Position::Center,
    Position::CenterRight,
    Position::BottomLeft,
    Position::BottomCenter,
    Position::BottomRight,
];

impl Position {
    fn square(self) -> usize {
        POSITIONS.iter().position(|position| *position == self).unwrap()
    }
}

#[derive(Clone, Copy, Debug)]
struct Positions {
    next: usize,
}

impl Iterator for Positions {
    type Item = Position;

    fn next(&mut self) -> Option<Position> {
        if self.next < 9 {
            self.next += 1;
            Some(POSITIONS[self.next - 1])
        } else {
            None
        }
    }

    fn size_hint(&self) -> (usize, Option<usize>) {
        (9 - self.next, Some(9 - self.next))
    }
}

impl ExactSizeIterator for Positions {}

impl std::iter::FusedIterator for Positions {}

impl IntoEnumIterator for Position {
    type Iterator = Positions;

    const VARIANT_COUNT: usize = 9;

    fn into_enum_iter() -> Positions {
        Positions { next: 0 }
    }
}

#[derive(Copy, Clone, Debug, PartialEq, Eq)]
struct TicTacToeBoard {
    active_player: Option<Player>,
    state_data: [Option<Player>; 9],
}

impl TicTacToeBoard {
    fn new() -> Self {
        TicTacToeBoard { active_player: Some(Player::X), state_data: [None; 9] }
    }

    /// The board after the given moves, X first.
    fn after(moves: &[Position]) -> Self {
        let mut board = TicTacToeBoard::new();
        for position in moves {
            board = board.successor(position).unwrap();
        }
        board
    }

    fn winner(&self) -> Option<Player> {
        const LINES: [[usize; 3]; 8] = [
            [0, 1, 2],
            [3, 4, 5],
            [6, 7, 8],
            [0, 3, 6],
            [1, 4, 7],
            [2, 5, 8],
            [2, 4, 6],
            [0, 4, 8],
        ];
        for line in LINES {
            if let Some(player) = self.state_data[line[0]] {
                if Some(player) == self.state_data[line[1]]
                    && Some(player) == self.state_data[line[2]]
                {
                    return Some(player);
                }
            }
        }
        None
    }
}

impl GameState for TicTacToeBoard {
    type Action = Position;
    type Agent = Player;

    fn next_agent(&self) -> Option<Player> {
        self.active_player
    }

    fn successor(&self, action: &Position) -> Option<Self> {
        if self.active_player.is_none() || self.state_data[action.square()].is_some() {
            None
        } else {
            let mut successor = *self;
            successor.state_data[action.square()] = self.active_player;
            if successor.winner().is_some() || successor.state_data.iter().all(Option::is_some) {
                successor.active_player = None;
            } else {
                successor.active_player = Some(successor.active_player.unwrap().other());
            }
            Some(successor)
        }
    }
}

/// +1 if the designated player has won, -1 if it has lost, 0 otherwise.
fn outcome_for(designated: Player, board: &TicTacToeBoard) -> i32 {
    match board.winner() {
        Some(player) if player == designated => 1,
        Some(_) => -1,
        None => 0,
    }
}

fn for_x(board: &TicTacToeBoard) -> i32 {
    outcome_for(Player::X, board)
}

fn for_o(board: &TicTacToeBoard) -> i32 {
    outcome_for(Player::O, board)
}

fn x_maximizes(player: &Player) -> bool {
    *player == Player::X
}

fn o_maximizes(player: &Player) -> bool {
    *player == Player::O
}

/// A utility in tenths.
#[derive(Clone, Copy, Debug, PartialEq, Eq, PartialOrd, Ord)]
struct Odds(i64);

impl ChanceUtility for Odds {
    fn zero() -> Odds {
        Odds(0)
    }

    fn plus(self, other: Odds) -> Odds {
        Odds(self.0 + other.0)
    }

    fn share(self, parts: usize) -> Odds {
        Odds(self.0 / parts as i64)
    }
}

#[test]
fn the_game_is_a_draw_from_the_empty_board() {
    let (action, utility) = minimax(&TicTacToeBoard::new(), 9, for_x, x_maximizes);
    assert_eq!(utility, 0);
    // Every opening draws; the first in the order of the positions is taken.
    assert_eq!(action, Some(Position::TopLeft));
}

#[test]
fn optimal_play_from_the_empty_board_ends_in_a_draw() {
    let mut board = TicTacToeBoard::new();
    let mut moves = 0;
    while !board.is_finished() {
        let (action, utility) = minimax(&board, 9, for_x, x_maximizes);
        assert_eq!(utility, 0);
        let action = action.unwrap();
        assert!(board.is_legal(&action));
        board = board.successor(&action).unwrap();
        moves += 1;
    }
    assert_eq!(moves, 9);
    assert_eq!(board.winner(), None);
}

#[test]
fn the_completing_move_is_taken() {
    // X X .
    // O O .
    // . . .
    let board = TicTacToeBoard::after(&[
        Position::TopLeft,
        Position::CenterLeft,
        Position::TopCenter,
        Position::Center,
    ]);
    assert_eq!(board.next_agent(), Some(Player::X));
    let (action, utility) = minimax(&board, 9, for_x, x_maximizes);
    assert_eq!(action, Some(Position::TopRight));
    assert_eq!(utility, 1);
    // One ply is enough to see it.
    let (action, utility) = minimax(&board, 1, for_x, x_maximizes);
    assert_eq!(action, Some(Position::TopRight));
    assert_eq!(utility, 1);
}

#[test]
fn the_completing_move_is_taken_by_the_second_player_too() {
    // X X .
    // O O .
    // X . .
    let board = TicTacToeBoard::after(&[
        Position::TopLeft,
        Position::CenterLeft,
        Position::TopCenter,
        Position::Center,
        Position::BottomLeft,
    ]);
    assert_eq!(board.next_agent(), Some(Player::O));
    let (action, utility) = minimax(&board, 9, for_o, o_maximizes);
    assert_eq!(action, Some(Position::CenterRight));
    assert_eq!(utility, 1);
    // The same position, scored for X and with X maximizing: O minimizes.
    let (action, utility) = minimax(&board, 9, for_x, x_maximizes);
    assert_eq!(action, Some(Position::CenterRight));
    assert_eq!(utility, -1);
}

#[test]
fn a_forced_win_is_found() {
    // X O .
    // . X .
    // . . O      X to move can threaten twice at once.
    let board = TicTacToeBoard::after(&[
        Position::TopLeft,
        Position::TopCenter,
        Position::Center,
        Position::BottomRight,
    ]);
    assert_eq!(board.next_agent(), Some(Player::X));
    let (action, utility) = minimax(&board, 9, for_x, x_maximizes);
    assert_eq!(utility, 1);
    let action = action.unwrap();
    // Whatever O answers, X still wins.
    let forked = board.successor(&action).unwrap();
    for reply in POSITIONS {
        if let Some(next) = forked.successor(&reply) {
            let (_, utility) = minimax(&next, 9, for_x, x_maximizes);
            assert_eq!(utility, 1);
        }
    }
}

#[test]
fn a_threat_is_parried() {
    // X X .
    // . O .
    // . . .
    let board = TicTacToeBoard::after(&[Position::TopLeft, Position::Center, Position::TopCenter]);
    assert_eq!(board.next_agent(), Some(Player::O));
    let (action, utility) = minimax(&board, 9, for_o, o_maximizes);
    assert_eq!(action, Some(Position::TopRight));
    assert_eq!(utility, 0);
}

#[test]
fn a_finished_game_recommends_nothing() {
    // X X X
    // O O .
    // . . .
    let board = TicTacToeBoard::after(&[
        Position::TopLeft,
        Position::CenterLeft,
        Position::TopCenter,
        Position::Center,
        Position::TopRight,
    ]);
    assert!(board.is_finished());
    assert_eq!(minimax(&board, 9, for_x, x_maximizes), (None, 1));
    assert_eq!(minimax(&board, 9, for_o, o_maximizes), (None, -1));
}

#[test]
fn a_shallow_search_does_not_see_the_end() {
    let (action, utility) = minimax(&TicTacToeBoard::new(), 2, for_x, x_maximizes);
    assert_eq!(action, Some(Position::TopLeft));
    assert_eq!(utility, 0);
    assert_eq!(minimax(&TicTacToeBoard::new(), 0, for_x, x_maximizes), (None, 0));
}

#[test]
fn against_a_random_opponent_the_completing_move_is_taken() {
    // X X .
    // O O .
    // X . .
    let board = TicTacToeBoard::after(&[
        Position::TopLeft,
        Position::CenterLeft,
        Position::TopCenter,
        Position::Center,
        Position::BottomLeft,
    ]);
    let (action, utility) = expectimax(
        &board,
        9,
        |board: &TicTacToeBoard| Odds(10 * i64::from(for_o(board))),
        |player: &Player| {
            if *player == Player::O {
                ExpectimaxAgentType::Maximizer
            } else {
                ExpectimaxAgentType::Random
            }
        },
    );
    assert_eq!(action, Some(Position::CenterRight));
    assert_eq!(utility, Odds(10));
}

#[test]
fn a_random_mover_gets_no_recommendation() {
    // X X O
    // O O X
    // X . .      O to move, at random; neither square wins.
    let board = TicTacToeBoard::after(&[
        Position::TopLeft,
        Position::TopRight,
        Position::TopCenter,
        Position::CenterLeft,
        Position::CenterRight,
        Position::Center,
        Position::BottomLeft,
    ]);
    assert_eq!(board.next_agent(), Some(Player::O));
    let (action, utility) = expectimax(
        &board,
        9,
        |board: &TicTacToeBoard| Odds(10 * i64::from(for_o(board))),
        |_player: &Player| ExpectimaxAgentType::Random,
    );
    assert_eq!(action, None);
    // Whichever square O takes, X takes the other, and the game is drawn.
    assert_eq!(utility, Odds(0));
}
