use chess_engine::game::GameManager;
use chess_engine::piece::PieceColour;
use chess_engine::timer::Timer;

#[test]
fn timer_counts_down() {
    let mut timer = Timer::new(2);
    assert_eq!(timer.remaining_duration(), 2000);
    assert!(!timer.is_finished());
    assert!(timer.is_running());
    timer.tick(500);
    assert_eq!(timer.remaining_duration(), 1500);
    timer.tick(2000);
    assert_eq!(timer.remaining_duration(), 0);
    assert!(timer.is_finished());
    assert!(!timer.is_running());
}

#[test]
fn paused_timer_does_not_move() {
    let mut timer = Timer::new(10);
    timer.pause();
    assert!(!timer.is_running());
    timer.tick(3000);
    assert_eq!(timer.remaining_duration(), 10_000);
    timer.resume();
    assert!(timer.is_running());
    timer.tick(3000);
    assert_eq!(timer.remaining_duration(), 7000);
}

#[test]
fn finished_timer_ignores_pause_and_resume() {
    let mut timer = Timer::new(0);
    assert!(timer.is_finished());
    timer.pause();
    timer.resume();
    assert!(timer.is_finished());
    assert!(!timer.is_running());
    timer.tick(100);
    assert_eq!(timer.remaining_duration(), 0);
}

#[test]
fn fresh_game_state() {
    let game = GameManager::new(10);
    assert_eq!(game.turn, PieceColour::White);
    assert_eq!(game.white_timer.remaining_duration(), 600_000);
    assert_eq!(game.black_timer.remaining_duration(), 600_000);
    assert!(game.white_timer.is_running());
    assert!(!game.black_timer.is_running());
    assert!(game
        .board
        .piece_at(chess_engine::position::Position::new(1, 5))
        .is_some());
}

#[test]
fn switching_turns_swaps_the_running_clock() {
    let mut game = GameManager::new(5);
    game.switch_turn();
    assert_eq!(game.turn, PieceColour::Black);
    assert!(!game.white_timer.is_running());
    assert!(game.black_timer.is_running());
    game.switch_turn();
    assert_eq!(game.turn, PieceColour::White);
    assert!(game.white_timer.is_running());
    assert!(!game.black_timer.is_running());
}
