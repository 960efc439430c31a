//! The wire protocol: packets from players parsed into [`Message`]s, and
//! [`Event`]s from the game encoded into packets of at most 16 bytes.
use vstd::prelude::*;
use vstd::std_specs::convert::TryFromSpecImpl;
use crate::outside::{packet_contents, packet_extend, packet_new, packet_push};

verus! {

/// A player's identifier: four bytes chosen by the client.
pub type ClientID = [u8; 4];

/// Command byte of a greeting: `c iiii ...` (command, client id, display name).
pub const HELLO: u8 = 1;

/// Command byte of a guess: `c iiii rgb` (command, client id, colour).
pub const GUESS_COLOR: u8 = 2;

/// Command byte of a guess result: `c iiii rgb d` (command, client id,
/// colour, closeness with the "closest so far" flag in the top bit).
pub const GUESS_RESULT: u8 = 3;

/// Command byte of a clock tick: `c r s tttttttt` (command, remaining
/// seconds, restart flag, timestamp). A tick that restarts the round is
/// announced as a [`ROUND_START`] instead, so the flag of a tick packet is
/// [`TICK_NO_RESTART`].
pub const TICK: u8 = 6;

/// The restart flag of a tick packet: the round goes on.
pub const TICK_NO_RESTART: u8 = 0;

/// Command byte of a new round: `c d T rgb tttttttt` (command, difficulty,
/// remaining seconds, secret colour, timestamp).
pub const ROUND_START: u8 = 7;

/// Command byte of the current round's settings, same layout as [`ROUND_START`].
pub const ROUND_CONFIG: u8 = 8;

/// Refusal of a packet shorter than the five bytes every command carries.
pub const ERR_TOO_SHORT: &'static str = "data is too short (in general)";

/// Refusal of a guess without the three colour bytes.
pub const ERR_GUESS_TOO_SHORT: &'static str = "data is too short for GuessColor";

/// Refusal of a packet whose command byte is not one a player may send.
pub const ERR_UNKNOWN_COMMAND: &'static str = "unknown command";

/// What a player can send to the game, plus the clock's tick.
#[derive(Clone, Copy, Debug, PartialEq, Eq)]
pub enum Message {
    Hello,
    GuessColor { client: ClientID, rgb: [u8; 3] },
    Tick,
}

/// The settings of a round as announced to players.
#[derive(Clone, Copy, Debug, PartialEq, Eq)]
pub struct RoundConfig {
    /// Closeness (in percent) a guess needs to win.
    pub difficulty: u8,
    /// Seconds left in the round.
    pub remaining: u8,
    /// The colour to be guessed.
    pub secret: [u8; 3],
    /// When the settings were read, in seconds since the Unix epoch.
    pub now: i64,
}

/// What the game tells players.
#[derive(Clone, Copy, Debug, PartialEq, Eq)]
pub enum Event {
    RoundStart(RoundConfig),
    RoundConfig(RoundConfig),
    GuessResult { client: ClientID, rgb: [u8; 3], closeness: u8, closest: bool },
    Tick { remaining: u8, now: i64 },
}

/// The message a packet denotes, or why it is refused. Every packet needs a
/// command byte and four client bytes; a greeting may carry anything after
/// them, a guess needs three colour bytes after them.
pub open spec fn parse_message(data: Seq<u8>) -> Result<Message, &'static str> {
    if data.len() < 5 {
        Err(ERR_TOO_SHORT)
    } else if data[0] == HELLO {
        Ok(Message::Hello)
    } else if data[0] == GUESS_COLOR {
        if data.len() < 8 {
            Err(ERR_GUESS_TOO_SHORT)
        } else {
            Ok(
                Message::GuessColor {
                    client: [data[1], data[2], data[3], data[4]],
                    rgb: [data[5], data[6], data[7]],
                },
            )
        }
    } else {
        Err(ERR_UNKNOWN_COMMAND)
    }
}

impl<'a> TryFrom<&'a [u8]> for Message {
    type Error = &'static str;

    /// Parses a packet received from a player.
    fn try_from(data: &'a [u8]) -> (r: Result<Message, &'static str>)
        ensures
            r == parse_message(data@),
    {
        if data.len() < 5 {
            return Err(ERR_TOO_SHORT);
        }
        let client: ClientID = [data[1], data[2], data[3], data[4]];
        if data[0] == HELLO {
            Ok(Message::Hello)
        } else if data[0] == GUESS_COLOR {
            if data.len() < 8 {
                Err(ERR_GUESS_TOO_SHORT)
            } else {
                Ok(Message::GuessColor { client, rgb: [data[5], data[6], data[7]] })
            }
        } else {
            Err(ERR_UNKNOWN_COMMAND)
        }
    }
}

impl<'a> TryFromSpecImpl<&'a [u8]> for Message {
    open spec fn obeys_try_from_spec() -> bool {
        true
    }

    open spec fn try_from_spec(v: &'a [u8]) -> Result<Message, &'static str> {
        parse_message(v@)
    }
}

/// The eight bytes of a timestamp, most significant first (two's complement).
pub open spec fn timestamp_bytes(t: i64) -> Seq<u8> {
    let u = t as u64;
    seq![
        (u / 0x100_0000_0000_0000) as u8,
        ((u / 0x1_0000_0000_0000) % 0x100) as u8,
        ((u / 0x100_0000_0000) % 0x100) as u8,
        ((u / 0x1_0000_0000) % 0x100) as u8,
        ((u / 0x100_0000) % 0x100) as u8,
        ((u / 0x1_0000) % 0x100) as u8,
        ((u / 0x100) % 0x100) as u8,
        (u % 0x100) as u8,
    ]
}

/// The last byte of a guess result: the closeness, with the top bit set
/// when the guess is the closest so far.
pub open spec fn result_byte(closeness: u8, closest: bool) -> u8 {
    if closest {
        closeness | 0x80
    } else {
        closeness
    }
}

/// A round's settings behind the given command byte.
pub open spec fn config_packet(command: u8, config: RoundConfig) -> Seq<u8> {
    seq![command, config.difficulty, config.remaining] + config.secret@ + timestamp_bytes(
        config.now,
    )
}

/// The packet that announces an event.
pub open spec fn event_packet(event: Event) -> Seq<u8> {
    match event {
        Event::RoundConfig(config) => config_packet(ROUND_CONFIG, config),
        Event::RoundStart(config) => config_packet(ROUND_START, config),
        Event::GuessResult { client, rgb, closeness, closest } => seq![GUESS_RESULT] + client@
            + rgb@ + seq![result_byte(closeness, closest)],
        Event::Tick { remaining, now } => seq![TICK, remaining, TICK_NO_RESTART] + timestamp_bytes(
            now,
        ),
    }
}

/// Each kind of event has a packet of fixed length, all within the 16 bytes
/// of the buffer they are assembled in.
pub proof fn lemma_event_packet_length(event: Event)
    ensures
        event_packet(event).len() == match event {
            Event::RoundStart(_) => 14nat,
            Event::RoundConfig(_) => 14nat,
            Event::GuessResult { .. } => 9nat,
            Event::Tick { .. } => 11nat,
        },
        event_packet(event).len() <= 16,
{
}

/// While a closeness fits in seven bits, the result byte carries both the
/// closeness (its low seven bits) and the "closest so far" flag (its top bit).
pub proof fn lemma_result_byte_separates(closeness: u8, closest: bool)
    requires
        closeness < 128,
    ensures
        result_byte(closeness, closest) % 128 == closeness,
        (result_byte(closeness, closest) >= 128) == closest,
{
    assert(closeness < 128 ==> (closeness | 0x80) % 128 == closeness && (closeness | 0x80)
        >= 128) by (bit_vector);
}

/// The number a sequence of bytes denotes, most significant byte first.
pub open spec fn big_endian_value(bytes: Seq<u8>) -> nat
    decreases bytes.len(),
{
    if bytes.len() == 0 {
        0
    } else {
        big_endian_value(bytes.drop_last()) * 256 + bytes.last() as nat
    }
}

/// The eight timestamp bytes of a packet read back, most significant first,
/// give the timestamp (as its two's-complement 64-bit pattern).
pub proof fn lemma_timestamp_bytes_read_back(t: i64)
    ensures
        timestamp_bytes(t).len() == 8,
        big_endian_value(timestamp_bytes(t)) == t as u64,
{
    let u = t as u64;
    let b = timestamp_bytes(t);
    reveal_with_fuel(big_endian_value, 9);
    assert(b.subrange(0, 0) =~= b.take(0));
    assert(b.take(1).drop_last() =~= b.take(0));
    assert(b.take(2).drop_last() =~= b.take(1));
    assert(b.take(3).drop_last() =~= b.take(2));
    assert(b.take(4).drop_last() =~= b.take(3));
    assert(b.take(5).drop_last() =~= b.take(4));
    assert(b.take(6).drop_last() =~= b.take(5));
    assert(b.take(7).drop_last() =~= b.take(6));
    assert(b.drop_last() =~= b.take(7));
    assert(big_endian_value(b.take(0)) == 0);
    assert(big_endian_value(b.take(1)) == b[0]);
    assert(big_endian_value(b.take(2)) == b[0] * 256 + b[1]);
    assert(big_endian_value(b.take(3)) == (b[0] * 256 + b[1]) * 256 + b[2]);
    assert(big_endian_value(b.take(4)) == ((b[0] * 256 + b[1]) * 256 + b[2]) * 256 + b[3]);
    assert(big_endian_value(b.take(5)) == (((b[0] * 256 + b[1]) * 256 + b[2]) * 256 + b[3]) * 256
        + b[4]);
    assert(big_endian_value(b.take(6)) == ((((b[0] * 256 + b[1]) * 256 + b[2]) * 256 + b[3]) * 256
        + b[4]) * 256 + b[5]);
    assert(big_endian_value(b.take(7)) == (((((b[0] * 256 + b[1]) * 256 + b[2]) * 256 + b[3])
        * 256 + b[4]) * 256 + b[5]) * 256 + b[6]);
    assert(big_endian_value(b) == ((((((b[0] * 256 + b[1]) * 256 + b[2]) * 256 + b[3]) * 256
        + b[4]) * 256 + b[5]) * 256 + b[6]) * 256 + b[7]);
    assert(((((((((u / 0x100_0000_0000_0000) as u8) as u64 * 256 + ((u / 0x1_0000_0000_0000)
        % 0x100) as u8 as u64) * 256 + ((u / 0x100_0000_0000) % 0x100) as u8 as u64) * 256 + ((u
        / 0x1_0000_0000) % 0x100) as u8 as u64) * 256 + ((u / 0x100_0000) % 0x100) as u8 as u64)
        * 256 + ((u / 0x1_0000) % 0x100) as u8 as u64) * 256 + ((u / 0x100) % 0x100) as u8 as u64)
        * 256 + (u % 0x100) as u8 as u64 == u) by (bit_vector);
}

/// The packet that announces an event, field by field: a command byte naming
/// the kind of event, then the event's fields in order, with every timestamp
/// as eight bytes that read back (most significant first) to it.
pub proof fn lemma_event_packet_fields(event: Event)
    ensures
        ({
            let p = event_packet(event);
            match event {
                Event::RoundStart(c) => {
                    &&& p.len() == 14 && p[0] == ROUND_START
                    &&& p[1] == c.difficulty && p[2] == c.remaining
                    &&& p.subrange(3, 6) == c.secret@
                    &&& big_endian_value(p.subrange(6, 14)) == c.now as u64
                },
                Event::RoundConfig(c) => {
                    &&& p.len() == 14 && p[0] == ROUND_CONFIG
                    &&& p[1] == c.difficulty && p[2] == c.remaining
                    &&& p.subrange(3, 6) == c.secret@
                    &&& big_endian_value(p.subrange(6, 14)) == c.now as u64
                },
                Event::GuessResult { client, rgb, closeness, closest } => {
                    &&& p.len() == 9 && p[0] == GUESS_RESULT
                    &&& p.subrange(1, 5) == client@
                    &&& p.subrange(5, 8) == rgb@
                    &&& !closest ==> p[8] == closeness
                    &&& closeness < 128 ==> p[8] % 128 == closeness && (p[8] >= 128) == closest
                },
                Event::Tick { remaining, now } => {
                    &&& p.len() == 11 && p[0] == TICK
                    &&& p[1] == remaining && p[2] == TICK_NO_RESTART
                    &&& big_endian_value(p.subrange(3, 11)) == now as u64
                },
            }
        }),
{
    let p = event_packet(event);
    match event {
        Event::RoundStart(c) => {
            lemma_timestamp_bytes_read_back(c.now);
            assert(p.subrange(3, 6) =~= c.secret@);
            assert(p.subrange(6, 14) =~= timestamp_bytes(c.now));
        },
        Event::RoundConfig(c) => {
            lemma_timestamp_bytes_read_back(c.now);
            assert(p.subrange(3, 6) =~= c.secret@);
            assert(p.subrange(6, 14) =~= timestamp_bytes(c.now));
        },
        Event::GuessResult { client, rgb, closeness, closest } => {
            assert(p.subrange(1, 5) =~= client@);
            assert(p.subrange(5, 8) =~= rgb@);
            if closeness < 128 {
                lemma_result_byte_separates(closeness, closest);
            }
        },
        Event::Tick { remaining, now } => {
            lemma_timestamp_bytes_read_back(now);
            assert(p.subrange(3, 11) =~= timestamp_bytes(now));
        },
    }
}

/// What a packet from a player parses to: refused below five bytes; with the
/// greeting command, a greeting whatever follows; with the guess command, a
/// guess whose client id is exactly bytes 1 to 4 and whose colour is exactly
/// bytes 5 to 7, or refused below eight bytes; any other command refused.
pub proof fn lemma_parse_fields(data: Seq<u8>)
    ensures
        data.len() < 5 ==> parse_message(data) == Err::<Message, &'static str>(ERR_TOO_SHORT),
        data.len() >= 5 && data[0] == HELLO ==> parse_message(data) == Ok::<Message, &'static str>(
            Message::Hello,
        ),
        data.len() >= 8 && data[0] == GUESS_COLOR ==> (parse_message(data) matches Ok(
            Message::GuessColor { client, rgb },
        ) && client@ == data.subrange(1, 5) && rgb@ == data.subrange(5, 8)),
        5 <= data.len() < 8 && data[0] == GUESS_COLOR ==> parse_message(data) == Err::<
            Message,
            &'static str,
        >(ERR_GUESS_TOO_SHORT),
        data.len() >= 5 && data[0] != HELLO && data[0] != GUESS_COLOR ==> parse_message(data)
            == Err::<Message, &'static str>(ERR_UNKNOWN_COMMAND),
{
    if data.len() >= 8 && data[0] == GUESS_COLOR {
        let m = parse_message(data);
        if let Ok(Message::GuessColor { client, rgb }) = m {
            assert(client@ =~= data.subrange(1, 5));
            assert(rgb@ =~= data.subrange(5, 8));
        }
    }
}

/// The big-endian bytes of a timestamp.
fn timestamp_be_bytes(t: i64) -> (r: [u8; 8])
    ensures
        r@ == timestamp_bytes(t),
{
    let u = t as u64;
    assert((u >> 56) as u8 == (u / 0x100_0000_0000_0000) as u8) by (bit_vector);
    assert((u >> 48) as u8 == ((u / 0x1_0000_0000_0000) % 0x100) as u8) by (bit_vector);
    assert((u >> 40) as u8 == ((u / 0x100_0000_0000) % 0x100) as u8) by (bit_vector);
    assert((u >> 32) as u8 == ((u / 0x1_0000_0000) % 0x100) as u8) by (bit_vector);
    assert((u >> 24) as u8 == ((u / 0x100_0000) % 0x100) as u8) by (bit_vector);
    assert((u >> 16) as u8 == ((u / 0x1_0000) % 0x100) as u8) by (bit_vector);
    assert((u >> 8) as u8 == ((u / 0x100) % 0x100) as u8) by (bit_vector);
    assert(u as u8 == (u % 0x100) as u8) by (bit_vector);
    let r = [
        (u >> 56) as u8,
        (u >> 48) as u8,
        (u >> 40) as u8,
        (u >> 32) as u8,
        (u >> 24) as u8,
        (u >> 16) as u8,
        (u >> 8) as u8,
        u as u8,
    ];
    assert(r@ =~= timestamp_bytes(t));
    r
}

/// Appends a round's settings behind the given command byte to an empty packet.
fn push_config(command: u8, config: &RoundConfig) -> (v: heapless::Vec<u8, 16>)
    ensures
        packet_contents(v) == config_packet(command, *config),
{
    let mut v = packet_new();
    let _ = packet_push(&mut v, command);
    let _ = packet_push(&mut v, config.difficulty);
    let _ = packet_push(&mut v, config.remaining);
    packet_extend(&mut v, &config.secret);
    let stamp = timestamp_be_bytes(config.now);
    packet_extend(&mut v, &stamp);
    assert(packet_contents(v) =~= config_packet(command, *config));
    v
}

impl Event {
    /// The packet that announces this event to players; it always fits in
    /// the 16 bytes of the buffer.
    pub fn as_bytes(&self) -> (v: heapless::Vec<u8, 16>)
        ensures
            packet_contents(v) == event_packet(*self),
            packet_contents(v).len() <= 16,
    {
        match self {
            Event::RoundConfig(config) => push_config(ROUND_CONFIG, config),
            Event::RoundStart(config) => push_config(ROUND_START, config),
            Event::GuessResult { client, rgb, closeness, closest } => {
                let mut v = packet_new();
                let _ = packet_push(&mut v, GUESS_RESULT);
                packet_extend(&mut v, client);
                packet_extend(&mut v, rgb);
                let last = if *closest {
                    *closeness | 0x80
                } else {
                    *closeness
                };
                let _ = packet_push(&mut v, last);
                assert(packet_contents(v) =~= event_packet(*self));
                v
            },
            Event::Tick { remaining, now } => {
                let mut v = packet_new();
                let _ = packet_push(&mut v, TICK);
                let _ = packet_push(&mut v, *remaining);
                let _ = packet_push(&mut v, TICK_NO_RESTART);
                let stamp = timestamp_be_bytes(*now);
                packet_extend(&mut v, &stamp);
                assert(packet_contents(v) =~= event_packet(*self));
                v
            },
        }
    }
}

} // verus!
