use rgblitz::protocol::{
    Event, Message, RoundConfig, ERR_GUESS_TOO_SHORT, ERR_TOO_SHORT, ERR_UNKNOWN_COMMAND,
};

fn parse(data: &[u8]) -> Result<Message, &'static str> {
    Message::try_from(data)
}

#[test]
fn greeting_needs_five_bytes() {
    assert_eq!(parse(&[]), Err(ERR_TOO_SHORT));
    assert_eq!(parse(&[1, 9, 9, 9]), Err(ERR_TOO_SHORT));
    assert_eq!(parse(&[1, 9, 9, 9, 9]), Ok(Message::Hello));
}

#[test]
fn greeting_ignores_display_name() {
    assert_eq!(parse(&[1, 1, 2, 3, 4, b'b', b'o', b'b']), Ok(Message::Hello));
}

#[test]
fn error_texts() {
    assert_eq!(ERR_TOO_SHORT, "data is too short (in general)");
    assert_eq!(ERR_GUESS_TOO_SHORT, "data is too short for GuessColor");
    assert_eq!(ERR_UNKNOWN_COMMAND, "unknown command");
}

#[test]
fn guess_carries_client_and_colour() {
    assert_eq!(
        parse(&[2, 10, 20, 30, 40, 255, 128, 0]),
        Ok(Message::GuessColor { client: [10, 20, 30, 40], rgb: [255, 128, 0] })
    );
    assert_eq!(
        parse(&[2, 10, 20, 30, 40, 1, 2, 3, 99, 99]),
        Ok(Message::GuessColor { client: [10, 20, 30, 40], rgb: [1, 2, 3] })
    );
}

#[test]
fn short_guess_is_refused() {
    assert_eq!(parse(&[2, 10, 20, 30, 40]), Err(ERR_GUESS_TOO_SHORT));
    assert_eq!(parse(&[2, 10, 20, 30, 40, 1, 2]), Err(ERR_GUESS_TOO_SHORT));
    assert_eq!(parse(&[2, 1, 2, 3]), Err(ERR_TOO_SHORT));
}

#[test]
fn unknown_commands_are_refused() {
    for command in [0u8, 3, 6, 7, 8, 255] {
        assert_eq!(parse(&[command, 0, 0, 0, 0, 0, 0, 0]), Err(ERR_UNKNOWN_COMMAND));
    }
}

#[test]
fn round_config_packet() {
    let config = RoundConfig { difficulty: 85, remaining: 40, secret: [1, 4, 225], now: 0x0102_0304_0506_0708 };
    let bytes = Event::RoundConfig(config).as_bytes();
    assert_eq!(&bytes[..], &[8, 85, 40, 1, 4, 225, 1, 2, 3, 4, 5, 6, 7, 8][..]);
    let bytes = Event::RoundStart(config).as_bytes();
    assert_eq!(&bytes[..], &[7, 85, 40, 1, 4, 225, 1, 2, 3, 4, 5, 6, 7, 8][..]);
}

#[test]
fn negative_timestamp_is_twos_complement() {
    let bytes = Event::Tick { remaining: 3, now: -2 }.as_bytes();
    assert_eq!(&bytes[..], &[6, 3, 0, 255, 255, 255, 255, 255, 255, 255, 254][..]);
    assert_eq!(&bytes[3..], &(-2i64).to_be_bytes()[..]);
}

#[test]
fn tick_packet() {
    let now = 1_700_000_000i64;
    let bytes = Event::Tick { remaining: 39, now }.as_bytes();
    assert_eq!(bytes.len(), 11);
    assert_eq!(bytes[0], 6);
    assert_eq!(bytes[1], 39);
    assert_eq!(bytes[2], 0);
    assert_eq!(&bytes[3..], &now.to_be_bytes()[..]);
}

#[test]
fn guess_result_packet_flags_closest_in_top_bit() {
    let closest = Event::GuessResult { client: [1, 2, 3, 4], rgb: [5, 6, 7], closeness: 73, closest: true };
    assert_eq!(&closest.as_bytes()[..], &[3, 1, 2, 3, 4, 5, 6, 7, 73 | 0x80][..]);
    let not = Event::GuessResult { client: [1, 2, 3, 4], rgb: [5, 6, 7], closeness: 73, closest: false };
    assert_eq!(&not.as_bytes()[..], &[3, 1, 2, 3, 4, 5, 6, 7, 73][..]);
}

#[test]
fn packets_fit_the_buffer() {
    let config = RoundConfig { difficulty: 255, remaining: 255, secret: [255, 255, 255], now: i64::MIN };
    assert_eq!(Event::RoundStart(config).as_bytes().len(), 14);
    assert_eq!(Event::RoundConfig(config).as_bytes().len(), 14);
    assert_eq!(Event::Tick { remaining: 0, now: i64::MAX }.as_bytes().len(), 11);
    let guess = Event::GuessResult { client: [0; 4], rgb: [0; 3], closeness: 255, closest: true };
    assert_eq!(guess.as_bytes().len(), 9);
    assert_eq!(guess.as_bytes()[8], 255);
}
