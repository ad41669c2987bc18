use uv5r::block::{ReadBlock, SendBlock, READ_STEPS, SEND_STEPS};
use uv5r::machine::{Action, Event};
use uv5r::wire::{Error, ProtocolViolation};

/// What a scripted radio saw of one exchange.
struct Seen<T> {
    outcome: Option<Result<T, Error>>,
    sent: Vec<Vec<u8>>,
    unread: usize,
    steps: usize,
}

/// Answers `action` from `replies`, as a driver on a line without faults does.
fn answer(action: Action, rest: &mut &[u8], sent: &mut Vec<Vec<u8>>) -> Event {
    match action {
        Action::Send(bytes) => {
            sent.push(bytes);
            Event::Sent
        }
        Action::Pause(_) => Event::Paused,
        Action::Load => Event::Loaded(Vec::new()),
        Action::Receive(count) => {
            if count <= rest.len() {
                let (head, tail) = rest.split_at(count);
                *rest = tail;
                Event::Received(head.to_vec())
            } else {
                Event::Failed
            }
        }
        Action::Finish => unreachable!(),
    }
}

fn read(address: u16, size: u8, first: bool, replies: &[u8]) -> Seen<Vec<u8>> {
    let mut rest = replies;
    let mut sent = Vec::new();
    let mut steps = 0;
    let (mut machine, mut action) = ReadBlock::start(address, size, first);
    while action != Action::Finish {
        let event = answer(action, &mut rest, &mut sent);
        steps += 1;
        let next = machine.step(event);
        machine = next.0;
        action = next.1;
    }
    Seen { outcome: machine.finish(), sent, unread: rest.len(), steps }
}

fn send(address: u16, data: &[u8], replies: &[u8]) -> Seen<bool> {
    let mut rest = replies;
    let mut sent = Vec::new();
    let mut steps = 0;
    let (mut machine, mut action) = SendBlock::start(address, data);
    while action != Action::Finish {
        let event = answer(action, &mut rest, &mut sent);
        steps += 1;
        let next = machine.step(event);
        machine = next.0;
        action = next.1;
    }
    Seen { outcome: machine.finish(), sent, unread: rest.len(), steps }
}

fn response(address: u16, size: u8, payload: &[u8]) -> Vec<u8> {
    let mut bytes = vec![0x58, (address >> 8) as u8, (address & 0xFF) as u8, size];
    bytes.extend_from_slice(payload);
    bytes
}

fn violation(kind: ProtocolViolation) -> Option<Result<Vec<u8>, Error>> {
    Some(Err(Error::Protocol(kind)))
}

#[test]
fn first_read_returns_payload_without_waiting_for_an_ack() {
    let payload: Vec<u8> = (0..0x40).collect();
    let seen = read(0x0000, 0x40, true, &response(0x0000, 0x40, &payload));
    assert_eq!(seen.outcome, Some(Ok(payload)));
    assert_eq!(seen.sent, vec![vec![0x53, 0x00, 0x00, 0x40], vec![0x06]]);
    assert_eq!(seen.unread, 0);
    assert_eq!(seen.steps, READ_STEPS - 1);
}

#[test]
fn later_read_consumes_the_ack_of_the_previous_block() {
    let payload: Vec<u8> = (0..0x40).map(|i| 0xFF - i).collect();
    let mut replies = vec![0x06];
    replies.extend(response(0x1EC0, 0x40, &payload));
    let seen = read(0x1EC0, 0x40, false, &replies);
    assert_eq!(seen.outcome, Some(Ok(payload)));
    assert_eq!(seen.sent, vec![vec![0x53, 0x1E, 0xC0, 0x40], vec![0x06]]);
    assert_eq!(seen.unread, 0);
    assert_eq!(seen.steps, READ_STEPS);
}

#[test]
fn read_request_splits_the_address_big_endian() {
    let seen = read(0x12AB, 0x10, true, &[]);
    assert_eq!(seen.sent, vec![vec![0x53, 0x12, 0xAB, 0x10]]);
    assert_eq!(seen.outcome, Some(Err(Error::Transport)));
}

#[test]
fn read_of_zero_bytes_returns_an_empty_payload() {
    let seen = read(0x0040, 0, true, &response(0x0040, 0, &[]));
    assert_eq!(seen.outcome, Some(Ok(Vec::new())));
    assert_eq!(seen.sent.len(), 2);
}

#[test]
fn read_fails_when_the_previous_block_is_not_acknowledged() {
    let mut replies = vec![0x15];
    replies.extend(response(0x0040, 0x40, &[0u8; 0x40]));
    let seen = read(0x0040, 0x40, false, &replies);
    assert_eq!(seen.outcome, violation(ProtocolViolation::ReadRejected));
    assert_eq!(seen.sent.len(), 1);
}

#[test]
fn read_fails_on_wrong_response_tag() {
    let mut replies = response(0x0100, 0x40, &[0u8; 0x40]);
    replies[0] = 0x57;
    let seen = read(0x0100, 0x40, true, &replies);
    assert_eq!(seen.outcome, violation(ProtocolViolation::InvalidResponseTag));
    // Nothing is acknowledged and the payload is left unread.
    assert_eq!(seen.sent, vec![vec![0x53, 0x01, 0x00, 0x40]]);
    assert_eq!(seen.unread, 0x40);
}

#[test]
fn read_fails_on_wrong_echoed_address() {
    for echoed in [0x0101u16, 0x0000, 0x0200, 0x0001] {
        let replies = response(echoed, 0x40, &[0u8; 0x40]);
        let seen = read(0x0100, 0x40, true, &replies);
        assert_eq!(seen.outcome, violation(ProtocolViolation::AddressMismatch));
        assert_eq!(seen.sent.len(), 1);
    }
}

#[test]
fn read_fails_on_wrong_echoed_size() {
    let replies = response(0x0100, 0x3F, &[0u8; 0x40]);
    let seen = read(0x0100, 0x40, true, &replies);
    assert_eq!(seen.outcome, violation(ProtocolViolation::SizeMismatch));
    assert_eq!(seen.sent.len(), 1);
}

#[test]
fn read_mismatches_are_detected_after_an_ack_too() {
    let good = response(0x0040, 0x40, &[0u8; 0x40]);
    let cases = [
        (0usize, ProtocolViolation::InvalidResponseTag),
        (1, ProtocolViolation::AddressMismatch),
        (2, ProtocolViolation::AddressMismatch),
        (3, ProtocolViolation::SizeMismatch),
    ];
    for (index, kind) in cases {
        let mut replies = vec![0x06];
        replies.extend_from_slice(&good);
        replies[1 + index] ^= 0x01;
        let seen = read(0x0040, 0x40, false, &replies);
        assert_eq!(seen.outcome, violation(kind));
    }
}

#[test]
fn read_reports_the_first_disagreement_only() {
    // Tag, address and size are all wrong: the tag is what is reported.
    let seen = read(0x0100, 0x40, true, &[0x00, 0xFF, 0xFF, 0x01]);
    assert_eq!(seen.outcome, violation(ProtocolViolation::InvalidResponseTag));
    // Address and size are wrong: the address is what is reported.
    let seen = read(0x0100, 0x40, true, &[0x58, 0xFF, 0xFF, 0x01]);
    assert_eq!(seen.outcome, violation(ProtocolViolation::AddressMismatch));
}

#[test]
fn read_fails_with_transport_error_when_the_radio_falls_silent() {
    let mut full = vec![0x06];
    full.extend(response(0x0040, 0x40, &[3u8; 0x40]));
    for cut in 0..full.len() {
        let seen = read(0x0040, 0x40, false, &full[..cut]);
        assert_eq!(seen.outcome, Some(Err(Error::Transport)), "cut at {}", cut);
    }
}

#[test]
fn read_fails_when_the_closing_ack_cannot_be_written() {
    let (machine, _) = ReadBlock::start(0, 2, true);
    let (machine, _) = machine.step(Event::Sent);
    let (machine, action) = machine.step(Event::Received(vec![0x58, 0, 0, 2]));
    assert_eq!(action, Action::Receive(2));
    let (machine, action) = machine.step(Event::Received(vec![1, 2]));
    assert_eq!(action, Action::Send(vec![0x06]));
    let (machine, action) = machine.step(Event::Failed);
    assert_eq!(action, Action::Finish);
    assert_eq!(machine.finish(), Some(Err(Error::Transport)));
}

#[test]
fn read_has_no_outcome_while_it_runs() {
    let (machine, _) = ReadBlock::start(0, 0x40, true);
    assert_eq!(machine.finish(), None);
}

#[test]
fn send_succeeds_on_ack_only() {
    let data = [0xAAu8; 0x10];
    let seen = send(0x0010, &data, &[0x06]);
    assert_eq!(seen.outcome, Some(Ok(true)));
    let mut frame = vec![0x58, 0x00, 0x10, 0x10];
    frame.extend_from_slice(&data);
    assert_eq!(seen.sent, vec![frame]);
    assert_eq!(seen.steps, SEND_STEPS);
}

#[test]
fn send_reports_rejection_for_every_other_byte() {
    for byte in 0..=255u8 {
        let seen = send(0x1EC0, &[1, 2, 3], &[byte]);
        assert_eq!(seen.outcome, Some(Ok(byte == 0x06)), "byte {:#04x}", byte);
    }
}

#[test]
fn send_reports_transport_error_when_no_answer_comes() {
    let seen = send(0x0000, &[0u8; 0x10], &[]);
    assert_eq!(seen.outcome, Some(Err(Error::Transport)));
    assert_eq!(seen.sent.len(), 1);
}

#[test]
fn send_reports_transport_error_when_the_frame_cannot_be_written() {
    let (machine, _) = SendBlock::start(0, &[1, 2]);
    let (machine, action) = machine.step(Event::Failed);
    assert_eq!(action, Action::Finish);
    assert_eq!(machine.finish(), Some(Err(Error::Transport)));
}

#[test]
fn send_frame_carries_length_and_payload() {
    let data: Vec<u8> = (0..255).map(|i| i as u8).collect();
    let (machine, action) = SendBlock::start(0xBEEF, &data);
    let mut frame = vec![0x58, 0xBE, 0xEF, 0xFF];
    frame.extend_from_slice(&data);
    assert_eq!(action, Action::Send(frame));
    assert_eq!(machine.finish(), None);
}

#[test]
fn send_of_nothing_is_a_bare_header() {
    let (_, action) = SendBlock::start(0x0102, &[]);
    assert_eq!(action, Action::Send(vec![0x58, 0x01, 0x02, 0x00]));
}

#[test]
fn send_reads_one_byte_only() {
    let seen = send(0x0000, &[0u8; 0x10], &[0x06, 0x06, 0x06]);
    assert_eq!(seen.outcome, Some(Ok(true)));
    assert_eq!(seen.unread, 2);
}
