//! The game: rounds with a secret colour, players' guesses scored against it,
//! a per-second countdown, and the LED animation schedule.
//!
//! What the device measures is handed in: the hardware random samples a new
//! secret is drawn from, and the closeness score of a guess (as the bit
//! pattern of the single-precision float the colour geometry produced).
use vstd::prelude::*;
use crate::outside::unix_now;
use crate::protocol::{ClientID, Event, Message, RoundConfig};
use crate::score::{
    bits_ge,
    bits_to_u8,
    is_nan,
    lemma_named_scores_as_percent,
    lemma_score_ge_total_preorder,
    score_as_u8,
    score_ge,
    PERFECT_SCORE_BITS,
    WINNING_SCORE_BITS,
    ZERO_SCORE_BITS,
};

verus! {

/// Seconds in a fresh round.
pub const ROUND_SECONDS: u8 = 40;

/// Seconds left once a guess wins, and the point from which the countdown
/// warning shows.
pub const FINAL_SECONDS: u8 = 5;

/// A light show the two LEDs play instead of showing the colours.
#[derive(Clone, Copy, Debug, PartialEq, Eq, Structural)]
pub enum Animation {
    /// A guess reached the winning closeness: green blinking.
    Correct,
    /// The round is about to end: steady yellow.
    TimeWarning,
    /// The round ended without a winner: magenta blinking.
    Timeout,
}

/// The state of the game.
pub struct GameState {
    secret_color: [u8; 3],
    closest_color: [u8; 3],
    closest_client: Option<ClientID>,
    closeness: u32,
    threshold: u32,
    round_time: u8,
    animation_duration: u32,
    animation: Option<Animation>,
}

/// The abstract state of the game. Scores are single-precision bit patterns
/// (see [`crate::score`]).
pub struct GameView {
    /// The colour to be guessed.
    pub secret_color: [u8; 3],
    /// The closest guess of the round so far (black before any).
    pub closest_color: [u8; 3],
    /// Who made it.
    pub closest_client: Option<ClientID>,
    /// Its closeness.
    pub closeness: u32,
    /// The closeness that wins the round.
    pub threshold: u32,
    /// Seconds left in the round; `0` before the first round.
    pub round_time: u8,
    /// Frames left in the running animation; `0` when it has not started.
    pub animation_duration: u32,
    /// The running animation, if any.
    pub animation: Option<Animation>,
}

impl View for GameState {
    type V = GameView;

    closed spec fn view(&self) -> GameView {
        GameView {
            secret_color: self.secret_color,
            closest_color: self.closest_color,
            closest_client: self.closest_client,
            closeness: self.closeness,
            threshold: self.threshold,
            round_time: self.round_time,
            animation_duration: self.animation_duration,
            animation: self.animation,
        }
    }
}

/// One channel of a secret colour drawn from a random sample: the square of
/// the sample's last four bits, capped at 255.
pub open spec fn channel_from_sample(sample: u32) -> u8 {
    let low = sample % 16;
    if low * low < 255 {
        (low * low) as u8
    } else {
        255
    }
}

/// The secret colour drawn from three random samples.
pub open spec fn drawn_color(samples: [u32; 3]) -> [u8; 3] {
    [
        channel_from_sample(samples[0]),
        channel_from_sample(samples[1]),
        channel_from_sample(samples[2]),
    ]
}

/// The game before its first round.
pub open spec fn initial_game() -> GameView {
    GameView {
        secret_color: [0, 0, 0],
        closest_color: [0, 0, 0],
        closest_client: None,
        closeness: ZERO_SCORE_BITS,
        threshold: WINNING_SCORE_BITS,
        round_time: 0,
        animation_duration: 0,
        animation: None,
    }
}

/// A fresh round: new secret, no guess yet, full time; the animation goes on.
pub open spec fn restarted(s: GameView, samples: [u32; 3]) -> GameView {
    GameView {
        secret_color: drawn_color(samples),
        closest_color: [0, 0, 0],
        closest_client: None,
        closeness: ZERO_SCORE_BITS,
        threshold: WINNING_SCORE_BITS,
        round_time: ROUND_SECONDS,
        ..s
    }
}

/// The round's settings as announced at time `now`.
pub open spec fn announced(s: GameView, now: i64) -> RoundConfig {
    RoundConfig {
        difficulty: score_as_u8(s.threshold),
        remaining: s.round_time,
        secret: s.secret_color,
        now,
    }
}

/// A guess with closeness `score`: at least as close as the best so far, it
/// becomes the best; reaching the threshold as well, it cuts the round to its
/// final seconds and starts the winning animation.
pub open spec fn after_guess(s: GameView, client: ClientID, rgb: [u8; 3], score: u32) -> GameView {
    if score_ge(score, s.closeness) {
        let best = GameView {
            closest_client: Some(client),
            closest_color: rgb,
            closeness: score,
            ..s
        };
        if score_ge(score, s.threshold) {
            GameView { round_time: FINAL_SECONDS, animation: Some(Animation::Correct), ..best }
        } else {
            best
        }
    } else {
        s
    }
}

/// A second passes: a running round counts down, warns in its final seconds,
/// and restarts when it runs out; with no round running nothing happens.
pub open spec fn after_tick(s: GameView, samples: [u32; 3]) -> GameView {
    if s.round_time > 0 {
        let left = (s.round_time - 1) as u8;
        let counted = GameView {
            round_time: left,
            animation: if left < FINAL_SECONDS {
                Some(Animation::TimeWarning)
            } else {
                s.animation
            },
            ..s
        };
        if left == 0 {
            restarted(counted, samples)
        } else {
            counted
        }
    } else {
        s
    }
}

/// The state after a message. A greeting starts a round when none is running.
pub open spec fn next_state(s: GameView, msg: Message, samples: [u32; 3], score: u32) -> GameView {
    match msg {
        Message::Hello => if s.round_time == 0 {
            restarted(s, samples)
        } else {
            s
        },
        Message::GuessColor { client, rgb } => after_guess(s, client, rgb, score),
        Message::Tick => after_tick(s, samples),
    }
}

/// What the game answers a message with at time `now`.
pub open spec fn reply(s: GameView, msg: Message, samples: [u32; 3], score: u32, now: i64) -> Event {
    match msg {
        Message::Hello => if s.round_time == 0 {
            Event::RoundStart(announced(restarted(s, samples), now))
        } else {
            Event::RoundConfig(announced(s, now))
        },
        Message::GuessColor { client, rgb } => Event::GuessResult {
            client,
            rgb,
            closeness: score_as_u8(score),
            closest: score_ge(score, s.closeness),
        },
        Message::Tick => if s.round_time == 1 {
            Event::RoundStart(announced(after_tick(s, samples), now))
        } else {
            Event::Tick { remaining: after_tick(s, samples).round_time, now }
        },
    }
}

/// How many frames an animation lasts.
pub open spec fn animation_frames(a: Animation) -> u32 {
    match a {
        Animation::Correct => 40,
        Animation::TimeWarning => 4,
        Animation::Timeout => 40,
    }
}

/// The frame counter of a running animation: its full length when it is
/// just starting.
pub open spec fn frame_counter(s: GameView, a: Animation) -> u32 {
    if s.animation_duration == 0 {
        animation_frames(a)
    } else {
        s.animation_duration
    }
}

/// The colour both LEDs show at a given frame counter: the blinking
/// animations are on for four frames and off for four.
pub open spec fn animation_color(a: Animation, counter: u32) -> [u8; 3] {
    match a {
        Animation::Correct => if counter % 8 >= 4 {
            [0, 255, 0]
        } else {
            [0, 0, 0]
        },
        Animation::TimeWarning => [255, 255, 0],
        Animation::Timeout => if counter % 8 >= 4 {
            [255, 0, 255]
        } else {
            [0, 0, 0]
        },
    }
}

/// The colours of the two LEDs for the next frame: without an animation,
/// the closest guess and the secret.
pub open spec fn led_colors(s: GameView) -> ([u8; 3], [u8; 3]) {
    match s.animation {
        None => (s.closest_color, s.secret_color),
        Some(a) => {
            let c = animation_color(a, frame_counter(s, a));
            (c, c)
        },
    }
}

/// The state once a frame has begun: a running animation that has not
/// started yet gets its full frame counter.
pub open spec fn frame_begun(s: GameView) -> GameView {
    match s.animation {
        None => s,
        Some(a) => GameView { animation_duration: frame_counter(s, a), ..s },
    }
}

/// The state once a frame has been shown: a running animation uses up one
/// frame and stops when none is left.
pub open spec fn frame_ended(s: GameView) -> GameView {
    match s.animation {
        None => s,
        Some(a) => {
            let left = (s.animation_duration - 1) as u32;
            GameView {
                animation_duration: left,
                animation: if left == 0 {
                    None
                } else {
                    Some(a)
                },
                ..s
            }
        },
    }
}

/// The state after a frame that was shown in full.
pub open spec fn after_frame(s: GameView) -> GameView {
    frame_ended(frame_begun(s))
}

/// The invariant every reachable game state keeps.
pub open spec fn well_formed(s: GameView) -> bool {
    &&& s.round_time <= ROUND_SECONDS
    &&& s.threshold == WINNING_SCORE_BITS
    &&& !is_nan(s.closeness)
    &&& s.animation_duration <= 40
    &&& s.animation is None ==> s.animation_duration == 0
}

/// The state after `n` ticks.
pub open spec fn ticked(s: GameView, samples: [u32; 3], n: nat) -> GameView
    decreases n,
{
    if n == 0 {
        s
    } else {
        after_tick(ticked(s, samples, (n - 1) as nat), samples)
    }
}

/// The state after `n` LED frames.
pub open spec fn framed(s: GameView, n: nat) -> GameView
    decreases n,
{
    if n == 0 {
        s
    } else {
        after_frame(framed(s, (n - 1) as nat))
    }
}

/// A new game is well formed.
pub proof fn lemma_new_game_well_formed()
    ensures
        well_formed(initial_game()),
{
}

/// Every message keeps the game well formed.
pub proof fn lemma_messages_keep_game_well_formed(
    s: GameView,
    msg: Message,
    samples: [u32; 3],
    score: u32,
)
    requires
        well_formed(s),
    ensures
        well_formed(next_state(s, msg, samples, score)),
{
}

/// Beginning and ending LED frames keep the game well formed; a begun frame
/// can always be ended.
pub proof fn lemma_frames_keep_game_well_formed(s: GameView)
    requires
        well_formed(s),
    ensures
        well_formed(frame_begun(s)),
        frame_begun(s).animation is Some ==> frame_begun(s).animation_duration > 0,
        well_formed(frame_ended(frame_begun(s))),
        well_formed(after_frame(s)),
{
}

/// If the best closeness and every score handed in are at most `100.0` (or
/// NaN, which is never taken), the best closeness stays at most `100.0`; the
/// other well-formedness facts hold whatever the score.
pub proof fn lemma_best_stays_at_most_perfect(s: GameView, msg: Message, samples: [u32; 3], score: u32)
    requires
        well_formed(s),
        score_ge(PERFECT_SCORE_BITS, s.closeness),
        is_nan(score) || score_ge(PERFECT_SCORE_BITS, score),
    ensures
        well_formed(next_state(s, msg, samples, score)),
        score_ge(PERFECT_SCORE_BITS, next_state(s, msg, samples, score).closeness),
{
    if !is_nan(score) {
        lemma_score_ge_total_preorder(PERFECT_SCORE_BITS, score, s.closeness);
    }
    assert(score_ge(PERFECT_SCORE_BITS, ZERO_SCORE_BITS));
}

/// Within a round the best closeness never gets worse: after any guess the
/// best score is at least the one before.
pub proof fn lemma_best_never_worsens(s: GameView, client: ClientID, rgb: [u8; 3], score: u32)
    requires
        well_formed(s),
    ensures
        score_ge(after_guess(s, client, rgb, score).closeness, s.closeness),
{
}

/// A guess is reported as the closest exactly when it becomes the round's
/// best guess; a best guess that reaches the winning closeness leaves the
/// round its final seconds and starts the winning animation.
pub proof fn lemma_closest_flag_names_the_best(
    s: GameView,
    client: ClientID,
    rgb: [u8; 3],
    samples: [u32; 3],
    score: u32,
    now: i64,
)
    requires
        well_formed(s),
    ensures
        ({
            let after = after_guess(s, client, rgb, score);
            let closest = reply(s, Message::GuessColor { client, rgb }, samples, score, now)->closest;
            &&& closest == (after.closest_client == Some(client) && after.closest_color == rgb
                && after.closeness == score)
            &&& closest && score_ge(score, WINNING_SCORE_BITS) ==> after.round_time
                == FINAL_SECONDS && after.animation == Some(Animation::Correct)
        }),
{
    if !score_ge(score, s.closeness) && !is_nan(score) {
        assert(score != s.closeness);
    }
}

/// A greeting while a round is running changes nothing and reports the round.
pub proof fn lemma_greeting_mid_round_is_read_only(s: GameView, samples: [u32; 3], score: u32, now: i64)
    requires
        s.round_time > 0,
    ensures
        next_state(s, Message::Hello, samples, score) == s,
        reply(s, Message::Hello, samples, score, now) == Event::RoundConfig(announced(s, now)),
{
}

proof fn lemma_countdown(s: GameView, samples: [u32; 3], k: nat)
    requires
        k < s.round_time,
    ensures
        ticked(s, samples, k).round_time == s.round_time - k,
        ticked(s, samples, k).secret_color == s.secret_color,
    decreases k,
{
    if k > 0 {
        lemma_countdown(s, samples, (k - 1) as nat);
    }
}

/// A round with `t` seconds left counts down one second per tick, keeping its
/// secret, and the `t`-th tick starts a new full round with a secret drawn
/// from that tick's samples, announced as a round start.
#[verifier::spinoff_prover]
pub proof fn lemma_round_runs_out(s: GameView, samples: [u32; 3], now: i64)
    requires
        s.round_time > 0,
    ensures
        forall|k: nat|
            k < s.round_time ==> #[trigger] ticked(s, samples, k).round_time == s.round_time - k
                && ticked(s, samples, k).secret_color == s.secret_color,
        ticked(s, samples, s.round_time as nat).round_time == ROUND_SECONDS,
        ticked(s, samples, s.round_time as nat).secret_color == drawn_color(samples),
        reply(ticked(s, samples, (s.round_time - 1) as nat), Message::Tick, samples, 0, now) is RoundStart,
{
    assert forall|k: nat| k < s.round_time implies #[trigger] ticked(s, samples, k).round_time
        == s.round_time - k && ticked(s, samples, k).secret_color == s.secret_color by {
        lemma_countdown(s, samples, k);
    }
    lemma_countdown(s, samples, (s.round_time - 1) as nat);
}

proof fn lemma_animation_frames_left(s: GameView, a: Animation, k: nat)
    requires
        s.animation == Some(a),
        s.animation_duration == 0,
        1 <= k <= animation_frames(a),
    ensures
        framed(s, k).animation_duration == animation_frames(a) - k,
        framed(s, k).animation == (if k < animation_frames(a) {
            Some(a)
        } else {
            None::<Animation>
        }),
    decreases k,
{
    assert(framed(s, 0) == s);
    if k > 1 {
        lemma_animation_frames_left(s, a, (k - 1) as nat);
    }
    assert(framed(s, k) == after_frame(framed(s, (k - 1) as nat)));
}

/// An animation that starts plays for exactly its number of frames (4 for
/// the warning, 40 for the others) and then gives the LEDs back to the
/// colours; meanwhile both LEDs show its colour, the blinking ones lit for
/// four frames and dark for four, counting down from the length.
pub proof fn lemma_animation_runs_its_course(s: GameView, a: Animation)
    requires
        s.animation == Some(a),
        s.animation_duration == 0,
    ensures
        animation_frames(a) == (if a == Animation::TimeWarning {
            4u32
        } else {
            40u32
        }),
        forall|k: nat| k < animation_frames(a) ==> (#[trigger] framed(s, k)).animation == Some(a),
        framed(s, animation_frames(a) as nat).animation is None,
        forall|k: nat|
            k < animation_frames(a) ==> (#[trigger] led_colors(framed(s, k))) == ({
                let on = (animation_frames(a) - k) % 8 >= 4;
                let c = match a {
                    Animation::Correct => if on {
                        [0u8, 255, 0]
                    } else {
                        [0u8, 0, 0]
                    },
                    Animation::TimeWarning => [255u8, 255, 0],
                    Animation::Timeout => if on {
                        [255u8, 0, 255]
                    } else {
                        [0u8, 0, 0]
                    },
                };
                (c, c)
            }),
{
    assert forall|k: nat| k < animation_frames(a) implies (#[trigger] framed(s, k)).animation
        == Some(a) && frame_counter(framed(s, k), a) == animation_frames(a) - k by {
        if k > 0 {
            lemma_animation_frames_left(s, a, k);
        }
    }
    lemma_animation_frames_left(s, a, animation_frames(a) as nat);
    assert forall|k: nat| k < animation_frames(a) implies (#[trigger] led_colors(framed(s, k)))
        == ({
        let on = (animation_frames(a) - k) % 8 >= 4;
        let c = match a {
            Animation::Correct => if on {
                [0u8, 255, 0]
            } else {
                [0u8, 0, 0]
            },
            Animation::TimeWarning => [255u8, 255, 0],
            Animation::Timeout => if on {
                [255u8, 0, 255]
            } else {
                [0u8, 0, 0]
            },
        };
        (c, c)
    }) by {
        if k > 0 {
            lemma_animation_frames_left(s, a, k);
        }
    }
}

/// A round that has just started: its secret's channels are the squares of
/// the last four bits of the three samples, no guess has been made (no
/// closest client, a black closest colour, a zero best score), the winning
/// closeness is in force and the full round time is left.
pub open spec fn is_fresh_round(t: GameView, samples: [u32; 3]) -> bool {
    &&& t.secret_color[0] == (samples[0] % 16) * (samples[0] % 16)
    &&& t.secret_color[1] == (samples[1] % 16) * (samples[1] % 16)
    &&& t.secret_color[2] == (samples[2] % 16) * (samples[2] % 16)
    &&& t.closest_client is None
    &&& t.closest_color == [0u8, 0, 0]
    &&& t.closeness == ZERO_SCORE_BITS
    &&& t.threshold == WINNING_SCORE_BITS
    &&& t.round_time == ROUND_SECONDS
}

proof fn lemma_channel_is_square(sample: u32)
    ensures
        channel_from_sample(sample) == (sample % 16) * (sample % 16),
{
    let low = sample % 16;
    assert(low * low <= 225) by (nonlinear_arith)
        requires
            low < 16,
    ;
}

/// Restarting gives a fresh round drawn from the samples, keeps the running
/// animation, and announces a difficulty of 85 percent, the full round time,
/// the new secret and the time given.
pub proof fn lemma_restart_starts_fresh_round(s: GameView, samples: [u32; 3], now: i64)
    ensures
        is_fresh_round(restarted(s, samples), samples),
        restarted(s, samples).animation == s.animation,
        restarted(s, samples).animation_duration == s.animation_duration,
        announced(restarted(s, samples), now) == (RoundConfig {
            difficulty: 85,
            remaining: ROUND_SECONDS,
            secret: restarted(s, samples).secret_color,
            now,
        }),
{
    lemma_channel_is_square(samples[0]);
    lemma_channel_is_square(samples[1]);
    lemma_channel_is_square(samples[2]);
    lemma_named_scores_as_percent();
}

/// A greeting with no round running starts a fresh round and announces it;
/// during a round it changes nothing and reports the round's settings: a
/// difficulty of 85 percent, the seconds actually left, the secret and the
/// time given.
pub proof fn lemma_greeting(s: GameView, samples: [u32; 3], score: u32, now: i64)
    requires
        well_formed(s),
    ensures
        ({
            let t = next_state(s, Message::Hello, samples, score);
            let r = reply(s, Message::Hello, samples, score, now);
            &&& s.round_time == 0 ==> is_fresh_round(t, samples) && t.animation == s.animation
                && r == Event::RoundStart(
                RoundConfig { difficulty: 85, remaining: ROUND_SECONDS, secret: t.secret_color, now },
            )
            &&& s.round_time > 0 ==> t == s && r == Event::RoundConfig(
                RoundConfig { difficulty: 85, remaining: s.round_time, secret: s.secret_color, now },
            )
        }),
{
    lemma_restart_starts_fresh_round(s, samples, now);
    lemma_named_scores_as_percent();
}

/// A guess is answered with its client, its colour, its score as a
/// percentage and whether it is at least as close as the best so far. Only
/// such a guess changes the game: it becomes the best (keeping the secret),
/// and only then, when it also reaches the winning closeness, is the round
/// cut to its final seconds with the winning animation. Any other guess
/// leaves the game exactly as it was.
pub proof fn lemma_guess(s: GameView, client: ClientID, rgb: [u8; 3], samples: [u32; 3], score: u32, now: i64)
    ensures
        ({
            let msg = Message::GuessColor { client, rgb };
            let t = next_state(s, msg, samples, score);
            let closest = score_ge(score, s.closeness);
            &&& reply(s, msg, samples, score, now) == Event::GuessResult {
                client,
                rgb,
                closeness: score_as_u8(score),
                closest,
            }
            &&& !closest ==> t == s
            &&& closest ==> t.closest_client == Some(client) && t.closest_color == rgb
                && t.closeness == score && t.secret_color == s.secret_color && t.threshold
                == s.threshold && t.animation_duration == s.animation_duration
            &&& closest && score_ge(score, s.threshold) ==> t.round_time == FINAL_SECONDS
                && t.animation == Some(Animation::Correct)
            &&& !(closest && score_ge(score, s.threshold)) ==> t.round_time == s.round_time
                && t.animation == s.animation
        }),
{
}

/// A tick with no round running changes nothing. In a running round it takes
/// one second off and keeps the secret and the best guess, warning from the
/// last five seconds on; the tick that takes the last second starts a fresh
/// round (with the warning still showing) and announces it instead.
pub proof fn lemma_tick(s: GameView, samples: [u32; 3], score: u32, now: i64)
    ensures
        ({
            let t = next_state(s, Message::Tick, samples, score);
            let r = reply(s, Message::Tick, samples, score, now);
            &&& s.round_time == 0 ==> t == s && r == Event::Tick { remaining: 0, now }
            &&& s.round_time > 1 ==> t.round_time == s.round_time - 1 && t.secret_color
                == s.secret_color && t.closest_client == s.closest_client && t.closest_color
                == s.closest_color && t.closeness == s.closeness && t.threshold == s.threshold
                && t.animation_duration == s.animation_duration && t.animation == (if s.round_time
                - 1 < FINAL_SECONDS {
                Some(Animation::TimeWarning)
            } else {
                s.animation
            }) && r == Event::Tick { remaining: (s.round_time - 1) as u8, now }
            &&& s.round_time == 1 ==> is_fresh_round(t, samples) && t.animation == Some(
                Animation::TimeWarning,
            ) && r == Event::RoundStart(
                RoundConfig { difficulty: 85, remaining: ROUND_SECONDS, secret: t.secret_color, now },
            )
        }),
{
    let left = (s.round_time - 1) as u8;
    let counted = GameView {
        round_time: left,
        animation: if left < FINAL_SECONDS {
            Some(Animation::TimeWarning)
        } else {
            s.animation
        },
        ..s
    };
    lemma_restart_starts_fresh_round(counted, samples, now);
}

/// Without an animation the first LED shows the best guess and the second
/// the secret; with one, both show the same colour.
pub proof fn lemma_led_colors(s: GameView)
    ensures
        s.animation is None ==> led_colors(s) == (s.closest_color, s.secret_color),
        s.animation is Some ==> led_colors(s).0 == led_colors(s).1,
{
}

/// One channel of a secret colour drawn from a random sample.
fn channel(sample: u32) -> (r: u8)
    ensures
        r == channel_from_sample(sample),
{
    let low = sample % 16;
    assert(low * low <= 225) by (nonlinear_arith)
        requires
            low < 16,
    ;
    let square = low * low;
    if square < 255 {
        square as u8
    } else {
        255
    }
}

/// Draws a secret colour from three hardware random samples.
pub fn random_color(samples: [u32; 3]) -> (r: [u8; 3])
    ensures
        r == drawn_color(samples),
{
    let r = [channel(samples[0]), channel(samples[1]), channel(samples[2])];
    assert(r =~= drawn_color(samples));
    r
}

impl GameState {
    /// The game before its first round.
    pub fn new() -> (r: GameState)
        ensures
            r@ == initial_game(),
    {
        GameState {
            secret_color: [0, 0, 0],
            closest_color: [0, 0, 0],
            closest_client: None,
            closeness: ZERO_SCORE_BITS,
            threshold: WINNING_SCORE_BITS,
            round_time: 0,
            animation: None,
            animation_duration: 0,
        }
    }

    /// The round's settings at time `now`.
    fn round_config(&self, now: i64) -> (r: RoundConfig)
        ensures
            r == announced(self@, now),
    {
        RoundConfig {
            difficulty: bits_to_u8(self.threshold),
            remaining: self.round_time,
            secret: self.secret_color,
            now,
        }
    }

    /// Starts a new round with a secret drawn from `samples` and announces it
    /// at time `now`.
    pub fn restart_at(&mut self, samples: [u32; 3], now: i64) -> (r: Event)
        ensures
            final(self)@ == restarted(old(self)@, samples),
            r == Event::RoundStart(announced(final(self)@, now)),
    {
        self.secret_color = random_color(samples);
        self.closest_color = [0, 0, 0];
        self.closest_client = None;
        self.closeness = ZERO_SCORE_BITS;
        self.threshold = WINNING_SCORE_BITS;
        self.round_time = ROUND_SECONDS;
        Event::RoundStart(self.round_config(now))
    }

    /// Starts a new round with a secret drawn from `samples`, reading the
    /// clock for the time it announces.
    pub fn restart(&mut self, samples: [u32; 3]) -> (r: Event)
        ensures
            final(self)@ == restarted(old(self)@, samples),
            exists|now: i64| r == Event::RoundStart(announced(final(self)@, now)),
    {
        let now = unix_now();
        self.restart_at(samples, now)
    }

    /// Handles a message at time `now`. `samples` are the random samples a
    /// new secret would be drawn from; `score` is the closeness of a guess's
    /// colour to the current secret (ignored for other messages).
    pub fn recv_at(&mut self, msg: Message, now: i64, samples: [u32; 3], score: u32) -> (r: Option<Event>)
        ensures
            final(self)@ == next_state(old(self)@, msg, samples, score),
            r == Some(reply(old(self)@, msg, samples, score, now)),
    {
        match msg {
            Message::Hello => {
                if self.round_time == 0 {
                    return Some(self.restart_at(samples, now));
                }
                Some(Event::RoundConfig(self.round_config(now)))
            },
            Message::GuessColor { client, rgb } => {
                let is_closest = bits_ge(score, self.closeness);
                if is_closest {
                    self.closest_client = Some(client);
                    self.closest_color = rgb;
                    self.closeness = score;
                    if bits_ge(score, self.threshold) {
                        self.round_time = FINAL_SECONDS;
                        self.animation = Some(Animation::Correct);
                    }
                }
                Some(
                    Event::GuessResult {
                        client,
                        rgb,
                        closeness: bits_to_u8(score),
                        closest: is_closest,
                    },
                )
            },
            Message::Tick => {
                if self.round_time > 0 {
                    self.round_time = self.round_time - 1;
                    if self.round_time < FINAL_SECONDS {
                        self.animation = Some(Animation::TimeWarning);
                    }
                    if self.round_time == 0 {
                        return Some(self.restart_at(samples, now));
                    }
                }
                Some(Event::Tick { remaining: self.round_time, now })
            },
        }
    }

    /// Handles a message, reading the clock for the time it announces.
    /// The new state does not depend on the clock; the answer is
    /// [`reply`] at whatever time the clock gave.
    pub fn recv(&mut self, msg: Message, samples: [u32; 3], score: u32) -> (r: Option<Event>)
        ensures
            final(self)@ == next_state(old(self)@, msg, samples, score),
            exists|now: i64| r == Some(reply(old(self)@, msg, samples, score, now)),
    {
        let now = unix_now();
        self.recv_at(msg, now, samples, score)
    }

    /// Begins the next LED frame: returns the colours of the two LEDs and,
    /// when an animation is just starting, sets its frame counter to the
    /// animation's length. The frame is used up by [`Self::end_frame`] once
    /// the LEDs show it.
    pub fn begin_frame(&mut self) -> (r: ([u8; 3], [u8; 3]))
        ensures
            r == led_colors(old(self)@),
            final(self)@ == frame_begun(old(self)@),
            final(self)@.animation is Some ==> final(self)@.animation_duration > 0,
    {
        match self.animation {
            None => (self.closest_color, self.secret_color),
            Some(animation) => {
                if self.animation_duration == 0 {
                    self.animation_duration =
                        match animation {
                            Animation::Correct => 40,
                            Animation::TimeWarning => 4,
                            Animation::Timeout => 40,
                        };
                }
                let color = match animation {
                    Animation::Correct => {
                        if self.animation_duration % 8 >= 4 {
                            [0, 255, 0]
                        } else {
                            [0, 0, 0]
                        }
                    },
                    Animation::TimeWarning => [255, 255, 0],
                    Animation::Timeout => {
                        if self.animation_duration % 8 >= 4 {
                            [255, 0, 255]
                        } else {
                            [0, 0, 0]
                        }
                    },
                };
                (color, color)
            },
        }
    }

    /// Ends a frame the LEDs have shown: a running animation uses up one
    /// frame and stops when none is left. A running animation has a frame
    /// counter above zero once its frame has begun.
    pub fn end_frame(&mut self)
        requires
            old(self)@.animation is Some ==> old(self)@.animation_duration > 0,
        ensures
            final(self)@ == frame_ended(old(self)@),
    {
        if self.animation.is_some() {
            self.animation_duration = self.animation_duration - 1;
            if self.animation_duration == 0 {
                self.animation = None;
            }
        }
    }

    /// Frames left in the running animation (`0` when it has not started).
    pub fn animation_duration(&self) -> (r: u32)
        ensures
            r == self@.animation_duration,
    {
        self.animation_duration
    }

    /// The colour to be guessed.
    pub fn secret_color(&self) -> (r: [u8; 3])
        ensures
            r == self@.secret_color,
    {
        self.secret_color
    }

    /// The closest guess of the round so far.
    pub fn closest_color(&self) -> (r: [u8; 3])
        ensures
            r == self@.closest_color,
    {
        self.closest_color
    }

    /// Who made the closest guess of the round so far.
    pub fn closest_client(&self) -> (r: Option<ClientID>)
        ensures
            r == self@.closest_client,
    {
        self.closest_client
    }

    /// The closeness of the best guess so far, as a single-precision bit pattern.
    pub fn closeness(&self) -> (r: u32)
        ensures
            r == self@.closeness,
    {
        self.closeness
    }

    /// Seconds left in the round.
    pub fn round_time(&self) -> (r: u8)
        ensures
            r == self@.round_time,
    {
        self.round_time
    }

    /// The running animation, if any.
    pub fn animation(&self) -> (r: Option<Animation>)
        ensures
            r == self@.animation,
    {
        self.animation
    }
}

} // verus!
