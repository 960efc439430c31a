use rgblitz::game::{random_color, Animation, GameState};

fn frame(game: &mut GameState) -> ([u8; 3], [u8; 3]) {
    let colors = game.begin_frame();
    game.end_frame();
    colors
}
use rgblitz::protocol::{Event, Message, RoundConfig};

const SAMPLES: [u32; 3] = [3, 4, 15];
const OTHER_SAMPLES: [u32; 3] = [16, 17, 0xFFFF_FFFF];

fn score(x: f32) -> u32 {
    x.to_bits()
}

fn started() -> GameState {
    let mut game = GameState::new();
    game.recv_at(Message::Hello, 1000, SAMPLES, 0);
    game
}

fn guess(game: &mut GameState, client: u8, rgb: [u8; 3], closeness: f32) -> Event {
    game.recv_at(
        Message::GuessColor { client: [client; 4], rgb },
        2000,
        SAMPLES,
        score(closeness),
    )
    .unwrap()
}

#[test]
fn secret_channels_are_squares_of_low_bits() {
    assert_eq!(random_color(SAMPLES), [9, 16, 225]);
    assert_eq!(random_color(OTHER_SAMPLES), [0, 1, 225]);
    assert_eq!(random_color([0x1234_5678, 0xa, 7]), [64, 100, 49]);
}

#[test]
fn new_game_has_no_round() {
    let mut game = GameState::new();
    assert_eq!(game.round_time(), 0);
    assert_eq!(game.secret_color(), [0, 0, 0]);
    assert_eq!(game.closest_color(), [0, 0, 0]);
    assert_eq!(game.closest_client(), None);
    assert_eq!(game.closeness(), 0);
    assert_eq!(game.animation(), None);
    assert_eq!(frame(&mut game), ([0, 0, 0], [0, 0, 0]));
}

#[test]
fn greeting_starts_the_first_round() {
    let mut game = GameState::new();
    let reply = game.recv_at(Message::Hello, 1000, SAMPLES, 0);
    assert_eq!(
        reply,
        Some(Event::RoundStart(RoundConfig { difficulty: 85, remaining: 40, secret: [9, 16, 225], now: 1000 }))
    );
    assert_eq!(game.round_time(), 40);
    assert_eq!(game.secret_color(), [9, 16, 225]);
}

#[test]
fn greeting_mid_round_reports_the_round() {
    let mut game = started();
    let reply = game.recv_at(Message::Hello, 1001, OTHER_SAMPLES, 0);
    assert_eq!(
        reply,
        Some(Event::RoundConfig(RoundConfig { difficulty: 85, remaining: 40, secret: [9, 16, 225], now: 1001 }))
    );
    assert_eq!(game.secret_color(), [9, 16, 225]);
    assert_eq!(game.round_time(), 40);
}

#[test]
fn closer_guesses_take_the_lead() {
    let mut game = started();
    assert_eq!(
        guess(&mut game, 1, [1, 2, 3], 50.5),
        Event::GuessResult { client: [1; 4], rgb: [1, 2, 3], closeness: 50, closest: true }
    );
    assert_eq!(game.closest_client(), Some([1; 4]));
    assert_eq!(game.closest_color(), [1, 2, 3]);
    assert_eq!(
        guess(&mut game, 2, [4, 5, 6], 40.0),
        Event::GuessResult { client: [2; 4], rgb: [4, 5, 6], closeness: 40, closest: false }
    );
    assert_eq!(game.closest_client(), Some([1; 4]));
    assert_eq!(game.closeness(), score(50.5));
    assert_eq!(
        guess(&mut game, 3, [7, 8, 9], 50.5),
        Event::GuessResult { client: [3; 4], rgb: [7, 8, 9], closeness: 50, closest: true }
    );
    assert_eq!(game.closest_client(), Some([3; 4]));
    assert_eq!(game.closest_color(), [7, 8, 9]);
    assert_eq!(game.round_time(), 40);
    assert_eq!(game.animation(), None);
}

#[test]
fn nan_guess_is_never_closest() {
    let mut game = started();
    assert_eq!(
        guess(&mut game, 1, [1, 2, 3], f32::NAN),
        Event::GuessResult { client: [1; 4], rgb: [1, 2, 3], closeness: 0, closest: false }
    );
    assert_eq!(game.closest_client(), None);
}

#[test]
fn winning_guess_cuts_the_round() {
    let mut game = started();
    assert_eq!(
        guess(&mut game, 7, [9, 16, 220], 97.25),
        Event::GuessResult { client: [7; 4], rgb: [9, 16, 220], closeness: 97, closest: true }
    );
    assert_eq!(game.round_time(), 5);
    assert_eq!(game.animation(), Some(Animation::Correct));
    // A later, lesser but still winning guess is not the best and changes nothing.
    assert_eq!(
        guess(&mut game, 8, [0, 0, 0], 90.0),
        Event::GuessResult { client: [8; 4], rgb: [0, 0, 0], closeness: 90, closest: false }
    );
    assert_eq!(game.closest_client(), Some([7; 4]));
}

#[test]
fn threshold_is_inclusive() {
    let mut game = started();
    guess(&mut game, 1, [1, 1, 1], 85.0);
    assert_eq!(game.round_time(), 5);
    let mut game = started();
    guess(&mut game, 1, [1, 1, 1], 84.99);
    assert_eq!(game.round_time(), 40);
    assert_eq!(game.animation(), None);
}

#[test]
fn ticks_count_down_and_restart() {
    let mut game = started();
    for expected in (1..40u8).rev() {
        let reply = game.recv_at(Message::Tick, 3000 + expected as i64, OTHER_SAMPLES, 0);
        assert_eq!(reply, Some(Event::Tick { remaining: expected, now: 3000 + expected as i64 }));
        assert_eq!(game.secret_color(), [9, 16, 225]);
        if expected < 5 {
            assert_eq!(game.animation(), Some(Animation::TimeWarning));
        } else {
            assert_eq!(game.animation(), None);
        }
    }
    let reply = game.recv_at(Message::Tick, 5000, OTHER_SAMPLES, 0);
    assert_eq!(
        reply,
        Some(Event::RoundStart(RoundConfig { difficulty: 85, remaining: 40, secret: [0, 1, 225], now: 5000 }))
    );
    assert_eq!(game.round_time(), 40);
    assert_eq!(game.closest_client(), None);
}

#[test]
fn tick_without_round_does_nothing() {
    let mut game = GameState::new();
    assert_eq!(game.recv_at(Message::Tick, 7, SAMPLES, 0), Some(Event::Tick { remaining: 0, now: 7 }));
    assert_eq!(game.round_time(), 0);
    assert_eq!(game.secret_color(), [0, 0, 0]);
}

#[test]
fn winning_animation_blinks_for_forty_frames() {
    let mut game = started();
    guess(&mut game, 1, [1, 2, 3], 99.0);
    let green = [0, 255, 0];
    let off = [0, 0, 0];
    for counter in (1..=40u32).rev() {
        assert_eq!(game.animation(), Some(Animation::Correct));
        let expected = if counter % 8 >= 4 { green } else { off };
        assert_eq!(frame(&mut game), (expected, expected), "counter {counter}");
    }
    assert_eq!(game.animation(), None);
    assert_eq!(frame(&mut game), ([1, 2, 3], [9, 16, 225]));
}

#[test]
fn warning_animation_lasts_four_frames() {
    let mut game = started();
    for _ in 0..36 {
        game.recv_at(Message::Tick, 1, SAMPLES, 0);
    }
    assert_eq!(game.round_time(), 4);
    for _ in 0..4 {
        assert_eq!(frame(&mut game), ([255, 255, 0], [255, 255, 0]));
    }
    assert_eq!(game.animation(), None);
    assert_eq!(frame(&mut game), ([0, 0, 0], [9, 16, 225]));
}

#[test]
fn recv_reads_the_clock() {
    let mut game = GameState::new();
    let reply = game.recv(Message::Hello, SAMPLES, 0);
    match reply {
        Some(Event::RoundStart(config)) => {
            assert_eq!(config.difficulty, 85);
            assert_eq!(config.remaining, 40);
            assert_eq!(config.secret, [9, 16, 225]);
            assert!(config.now > 1_600_000_000);
        }
        other => panic!("unexpected reply {other:?}"),
    }
}

#[test]
fn restart_resets_the_round() {
    let mut game = started();
    guess(&mut game, 1, [1, 2, 3], 99.0);
    let event = game.restart_at(OTHER_SAMPLES, 42);
    assert_eq!(
        event,
        Event::RoundStart(RoundConfig { difficulty: 85, remaining: 40, secret: [0, 1, 225], now: 42 })
    );
    assert_eq!(game.closest_client(), None);
    assert_eq!(game.closest_color(), [0, 0, 0]);
    assert_eq!(game.closeness(), 0);
    assert_eq!(game.animation(), Some(Animation::Correct));
}

#[test]
fn restart_reads_the_clock() {
    let mut game = started();
    match game.restart(OTHER_SAMPLES) {
        Event::RoundStart(config) => {
            assert_eq!(config.remaining, 40);
            assert_eq!(config.secret, [0, 1, 225]);
            assert!(config.now > 1_600_000_000);
        }
        other => panic!("unexpected event {other:?}"),
    }
    assert_eq!(game.round_time(), 40);
}

#[test]
fn unshown_frame_is_not_used_up() {
    let mut game = started();
    guess(&mut game, 1, [1, 2, 3], 99.0);
    assert_eq!(game.animation_duration(), 0);
    // The LEDs fail to show the first frame: the counter is set, not spent.
    assert_eq!(game.begin_frame(), ([0, 0, 0], [0, 0, 0]));
    assert_eq!(game.animation_duration(), 40);
    assert_eq!(game.animation(), Some(Animation::Correct));
    // Trying again shows the same frame, which is then used up.
    assert_eq!(frame(&mut game), ([0, 0, 0], [0, 0, 0]));
    assert_eq!(game.animation_duration(), 39);
    assert_eq!(frame(&mut game), ([0, 255, 0], [0, 255, 0]));
    assert_eq!(game.animation_duration(), 38);
}

#[test]
fn last_frame_ends_the_animation() {
    let mut game = started();
    for _ in 0..36 {
        game.recv_at(Message::Tick, 1, SAMPLES, 0);
    }
    for _ in 0..3 {
        frame(&mut game);
    }
    assert_eq!(game.animation_duration(), 1);
    game.begin_frame();
    assert_eq!(game.animation(), Some(Animation::TimeWarning));
    game.end_frame();
    assert_eq!(game.animation(), None);
    assert_eq!(game.animation_duration(), 0);
}
