use connect_four::board_logic::bit_board::{BitBoard, GameResult};
use connect_four::state_system::game_state::{GameStateIndex, StateUpdate, StoneDrop};
use connect_four::state_system::state_computer_execution::StateComputerExecution;
use connect_four::state_system::state_game_over::StateGameOver;
use connect_four::state_system::state_player_input::StatePlayerInput;
use connect_four::state_system::state_player_start_selection::StatePlayerStartSelection;

fn bit(x: u32, y: u32) -> u64 {
    1u64 << (x + 8 * y)
}

fn played(moves: &[(u32, bool)]) -> BitBoard {
    let mut board = BitBoard::new();
    for &(column, is_computer) in moves {
        board.apply_move_on_column(column, is_computer);
    }
    board
}

fn is_nothing(update: &StateUpdate) -> bool {
    update.next_state.is_none() && update.stone_drop.is_none() && update.analysis_request.is_none()
}

#[test]
fn state_indices_are_the_places_in_the_collection() {
    assert_eq!(GameStateIndex::StartSelection.index(), 0);
    assert_eq!(GameStateIndex::ComputerExecutionState.index(), 1);
    assert_eq!(GameStateIndex::PlayerInputState.index(), 2);
    assert_eq!(GameStateIndex::GameOverState.index(), 3);
    assert!(is_nothing(&StateUpdate::nothing()));
    let update = StateUpdate::transition(GameStateIndex::GameOverState);
    assert_eq!(update.next_state, Some(GameStateIndex::GameOverState));
    assert!(update.stone_drop.is_none() && update.analysis_request.is_none());
}

#[test]
fn start_selection_player_begins() {
    let mut state = StatePlayerStartSelection::new();
    let mut board = BitBoard::new();
    board.set_computer_first(true);
    state.enter();
    assert!(is_nothing(&state.update(false, &mut board)));
    // A click beside the buttons selects nothing.
    state.mouse_click(false, false);
    assert!(!state.selection_happened);
    state.mouse_click(true, false);
    assert!(state.selection_happened);
    assert_eq!(state.position_selected, 0);
    // Later clicks change nothing.
    state.mouse_click(false, true);
    assert_eq!(state.position_selected, 0);
    assert!(is_nothing(&state.update(false, &mut board)));
    assert!(board.get_computer_first());
    let update = state.update(true, &mut board);
    assert_eq!(update.next_state, Some(GameStateIndex::PlayerInputState));
    assert!(update.stone_drop.is_none());
    assert!(update.analysis_request.is_none());
    assert!(!board.get_computer_first());
}

#[test]
fn start_selection_computer_begins() {
    let mut state = StatePlayerStartSelection::new();
    let mut board = BitBoard::new();
    state.enter();
    state.mouse_click(false, true);
    assert!(state.selection_happened);
    assert_eq!(state.position_selected, 1);
    let update = state.update(true, &mut board);
    assert_eq!(update.next_state, Some(GameStateIndex::ComputerExecutionState));
    assert!(update.stone_drop.is_none());
    let request = update.analysis_request.unwrap();
    assert_eq!((request.own_stones, request.opponent_stones), (0, 0));
    assert!(request.get_computer_first());
    assert!(board.get_computer_first());
    // Entering again forgets the selection.
    state.enter();
    assert!(!state.selection_happened);
}

#[test]
fn player_input_waits_for_a_slot() {
    let mut state = StatePlayerInput::new();
    let mut board = played(&[(3, true)]);
    state.enter();
    assert!(state.waiting_for_player);
    assert!(is_nothing(&state.update(false, &mut board)));
    assert!(is_nothing(&state.update(true, &mut board)));
    assert!(state.waiting_for_player);
    assert_eq!(board.opponent_stones, 0);
}

#[test]
fn player_input_takes_the_first_slot_picked() {
    let mut state = StatePlayerInput::new();
    state.enter();
    state.mouse_click(4);
    state.mouse_click(2);
    assert_eq!(state.slot_picked, Some(4));
}

#[test]
fn player_input_ignores_a_full_column() {
    let mut state = StatePlayerInput::new();
    let mut board = played(&[(3, true), (3, false), (3, true), (3, false), (3, true), (3, false)]);
    let before = (board.own_stones, board.opponent_stones);
    state.enter();
    state.mouse_click(3);
    assert!(is_nothing(&state.update(false, &mut board)));
    assert_eq!(state.slot_picked, None);
    assert!(state.waiting_for_player);
    assert_eq!((board.own_stones, board.opponent_stones), before);
    // The next pick counts again.
    state.mouse_click(2);
    assert_eq!(state.slot_picked, Some(2));
}

#[test]
fn player_input_drops_the_stone_and_asks_for_the_answer() {
    let mut state = StatePlayerInput::new();
    let mut board = played(&[(3, true)]);
    state.enter();
    state.mouse_click(3);
    let update = state.update(false, &mut board);
    assert_eq!(update.next_state, None);
    assert_eq!(update.stone_drop, Some(StoneDrop { column: 3, is_computer: false }));
    let request = update.analysis_request.unwrap();
    assert_eq!((request.own_stones, request.opponent_stones), (bit(3, 0), bit(3, 1)));
    // The move is not made yet: the stone is still to fall.
    assert_eq!((board.own_stones, board.opponent_stones), (bit(3, 0), 0));
    assert!(!state.waiting_for_player);
    assert!(!state.transition_to_game_over);
    assert_eq!(state.buffered_move, bit(3, 1));
    assert_eq!(state.slot_picked, None);
    // While the stone falls nothing happens.
    assert!(is_nothing(&state.update(true, &mut board)));
    assert_eq!(board.opponent_stones, 0);
    // When it has come down the move is made.
    let update = state.update(false, &mut board);
    assert_eq!(update.next_state, Some(GameStateIndex::ComputerExecutionState));
    assert!(update.stone_drop.is_none() && update.analysis_request.is_none());
    assert_eq!((board.own_stones, board.opponent_stones), (bit(3, 0), bit(3, 1)));
}

#[test]
fn player_input_sees_the_end_of_the_game() {
    let mut state = StatePlayerInput::new();
    let mut board = played(&[
        (0, false),
        (0, true),
        (1, false),
        (1, true),
        (2, false),
        (2, true),
    ]);
    state.enter();
    state.mouse_click(3);
    let update = state.update(false, &mut board);
    assert_eq!(update.stone_drop, Some(StoneDrop { column: 3, is_computer: false }));
    // No answer is wanted to a move that ends the game.
    assert!(update.analysis_request.is_none());
    assert!(state.transition_to_game_over);
    let update = state.update(false, &mut board);
    assert_eq!(update.next_state, Some(GameStateIndex::GameOverState));
    assert!(board.is_game_over());
}

#[test]
fn computer_execution_awaits_the_move() {
    let mut state = StateComputerExecution::new();
    let mut board = played(&[(3, false)]);
    state.enter();
    assert!(is_nothing(&state.update(None, false, &mut board)));
    assert!(!state.computation_executed);
    let update = state.update(Some(2), false, &mut board);
    assert_eq!(update.next_state, None);
    assert_eq!(update.stone_drop, Some(StoneDrop { column: 2, is_computer: true }));
    assert!(update.analysis_request.is_none());
    assert!(state.computation_executed);
    assert_eq!(state.slot_picked, 2);
    assert_eq!(board.own_stones, 0);
    // While the stone falls nothing happens, whatever else comes.
    assert!(is_nothing(&state.update(None, true, &mut board)));
    assert!(is_nothing(&state.update(Some(5), true, &mut board)));
    assert_eq!(state.slot_picked, 2);
    let update = state.update(None, false, &mut board);
    assert_eq!(update.next_state, Some(GameStateIndex::PlayerInputState));
    assert_eq!((board.own_stones, board.opponent_stones), (bit(2, 0), bit(3, 0)));
    // Entering again awaits the next move.
    state.enter();
    assert!(!state.computation_executed);
}

#[test]
fn computer_execution_sees_the_end_of_the_game() {
    let mut state = StateComputerExecution::new();
    let mut board = played(&[
        (0, true),
        (0, false),
        (1, true),
        (1, false),
        (2, true),
        (2, false),
    ]);
    state.enter();
    state.update(Some(3), false, &mut board);
    let update = state.update(None, false, &mut board);
    assert_eq!(update.next_state, Some(GameStateIndex::GameOverState));
    assert!(board.is_game_over());
}

#[test]
fn game_over_shows_the_result_and_starts_over() {
    let mut board = played(&[
        (0, true),
        (0, false),
        (1, true),
        (1, false),
        (2, true),
        (2, false),
        (3, true),
    ]);
    board.set_computer_first(true);
    let mut state = StateGameOver::new();
    assert_eq!(state.end_result, GameResult::Pending);
    state.enter(&board);
    assert_eq!(state.end_result, GameResult::FirstPlayerWon);
    assert_eq!(state.highlighted_stones, vec![(0, 0), (1, 0), (2, 0), (3, 0)]);
    assert!(!state.exit_pressed);
    assert_eq!(state.update(&mut board), None);
    assert_ne!(board.own_stones, 0);
    state.mouse_click();
    assert!(state.exit_pressed);
    assert_eq!(state.update(&mut board), Some(GameStateIndex::StartSelection));
    assert_eq!((board.own_stones, board.opponent_stones), (0, 0));
    assert!(board.get_computer_first());
}

#[test]
fn game_over_by_a_draw_highlights_nothing() {
    let mut board = BitBoard::new();
    board.own_stones = 0x6817_7508_0e75;
    board.opponent_stones = 0x1768_0a77_710a;
    let mut state = StateGameOver::new();
    state.enter(&board);
    assert_eq!(state.end_result, GameResult::Draw);
    assert_eq!(state.highlighted_stones, vec![]);
}
