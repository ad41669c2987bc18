use uv5r::handshake::{Handshake, HandshakePhase, HANDSHAKE_STEPS};
use uv5r::machine::{Action, Event};
use uv5r::wire::{Error, ProtocolViolation};

const MAGIC: [u8; 7] = [0x50, 0xBB, 0xFF, 0x20, 0x12, 0x07, 0x25];

/// What a scripted radio saw of one handshake.
struct Seen {
    outcome: Option<Result<Vec<u8>, Error>>,
    sent: Vec<Vec<u8>>,
    pauses: Vec<u64>,
    unread: usize,
    steps: usize,
}

/// Runs a handshake against a radio that sends `replies` and nothing more.
fn run(replies: &[u8]) -> Seen {
    let mut rest = replies;
    let mut sent = Vec::new();
    let mut pauses = Vec::new();
    let mut steps = 0;
    let (mut machine, mut action) = Handshake::start();
    loop {
        let event = match action {
            Action::Send(bytes) => {
                sent.push(bytes);
                Event::Sent
            }
            Action::Pause(millis) => {
                pauses.push(millis);
                Event::Paused
            }
            Action::Load => Event::Loaded(Vec::new()),
            Action::Receive(count) => {
                if count <= rest.len() {
                    let (head, tail) = rest.split_at(count);
                    rest = tail;
                    Event::Received(head.to_vec())
                } else {
                    Event::Failed
                }
            }
            Action::Finish => {
                return Seen {
                    outcome: machine.finish(),
                    sent,
                    pauses,
                    unread: rest.len(),
                    steps,
                }
            }
        };
        steps += 1;
        let next = machine.step(event);
        machine = next.0;
        action = next.1;
    }
}

fn replies_for(ident: &[u8]) -> Vec<u8> {
    let mut replies = vec![0x06];
    replies.extend_from_slice(ident);
    if ident.len() < 12 {
        replies.push(0xDD);
    }
    replies.push(0x06);
    replies
}

fn violation(kind: ProtocolViolation) -> Option<Result<Vec<u8>, Error>> {
    Some(Err(Error::Protocol(kind)))
}

#[test]
fn identify_returns_eight_byte_ident_before_terminator() {
    let ident = vec![0x49, 0x44, 0x2D, 0x41, 0x00, 0x00, 0x00, 0x00];
    let seen = run(&replies_for(&ident));
    assert_eq!(seen.outcome, Some(Ok(ident)));
    assert_eq!(seen.sent, vec![MAGIC.to_vec(), vec![0x02], vec![0x06]]);
    assert_eq!(seen.pauses, vec![50]);
    assert_eq!(seen.unread, 0);
}

#[test]
fn identify_returns_every_valid_length() {
    for len in 8..=12usize {
        let ident: Vec<u8> = (0..len).map(|i| 0xA0 + i as u8).collect();
        let seen = run(&replies_for(&ident));
        assert_eq!(seen.outcome, Some(Ok(ident)), "length {}", len);
        assert_eq!(seen.unread, 0);
        assert!(seen.steps <= HANDSHAKE_STEPS);
    }
}

#[test]
fn identify_keeps_twelve_bytes_without_reading_a_terminator() {
    let ident: Vec<u8> = (1..=12).collect();
    let mut replies = replies_for(&ident);
    assert_eq!(replies.len(), 14);
    replies.extend_from_slice(&[0x99, 0x98]);
    let seen = run(&replies);
    assert_eq!(seen.outcome, Some(Ok(ident)));
    assert_eq!(seen.unread, 2);
    assert_eq!(seen.steps, HANDSHAKE_STEPS);
}

#[test]
fn identify_treats_a_thirteenth_byte_as_the_clone_confirmation() {
    // Twelve ident bytes, then a terminator where the confirmation is due.
    let mut replies = vec![0x06];
    replies.extend_from_slice(&[7u8; 12]);
    replies.push(0xDD);
    replies.push(0x06);
    let seen = run(&replies);
    assert_eq!(seen.outcome, violation(ProtocolViolation::CloneRejected));
}

#[test]
fn identify_keeps_zero_bytes_inside_the_ident() {
    let ident = vec![0, 0, 0, 0, 0, 0, 0, 0, 0];
    let seen = run(&replies_for(&ident));
    assert_eq!(seen.outcome, Some(Ok(ident)));
}

#[test]
fn identify_fails_when_magic_is_not_acknowledged() {
    let seen = run(&[0x15, 0x06, 0x06]);
    assert_eq!(seen.outcome, violation(ProtocolViolation::HandshakeRejected));
    assert_eq!(seen.sent, vec![MAGIC.to_vec()]);
    assert_eq!(seen.unread, 2);
}

#[test]
fn identify_fails_on_short_ident() {
    let mut replies = vec![0x06];
    replies.extend_from_slice(&[1, 2, 3, 4, 5, 6, 7]);
    replies.push(0xDD);
    replies.push(0x06);
    let seen = run(&replies);
    assert_eq!(seen.outcome, violation(ProtocolViolation::InvalidIdentLength));
    // The ident is not acknowledged.
    assert_eq!(seen.sent, vec![MAGIC.to_vec(), vec![0x02]]);
}

#[test]
fn identify_fails_on_immediate_terminator() {
    let seen = run(&[0x06, 0xDD, 0x06]);
    assert_eq!(seen.outcome, violation(ProtocolViolation::InvalidIdentLength));
}

#[test]
fn identify_fails_when_clone_mode_is_refused() {
    let mut replies = replies_for(&[9u8; 8]);
    let last = replies.len() - 1;
    replies[last] = 0x07;
    let seen = run(&replies);
    assert_eq!(seen.outcome, violation(ProtocolViolation::CloneRejected));
    assert_eq!(seen.sent.len(), 3);
}

#[test]
fn identify_fails_with_transport_error_when_the_radio_falls_silent() {
    let full = replies_for(&[9u8; 10]);
    for cut in 0..full.len() {
        let seen = run(&full[..cut]);
        assert_eq!(seen.outcome, Some(Err(Error::Transport)), "cut at {}", cut);
    }
}

#[test]
fn handshake_reports_transport_error_on_write_failure() {
    let (machine, _) = Handshake::start();
    let (machine, action) = machine.step(Event::Failed);
    assert_eq!(action, Action::Finish);
    assert!(machine.is_finished());
    assert_eq!(machine.finish(), Some(Err(Error::Transport)));
}

#[test]
fn handshake_rejects_an_event_that_does_not_answer_its_action() {
    let (machine, _) = Handshake::start();
    let (machine, action) = machine.step(Event::Sent);
    assert_eq!(action, Action::Pause(50));
    // A pause was asked for, and bytes are reported.
    let (machine, action) = machine.step(Event::Received(vec![0x06]));
    assert_eq!(action, Action::Finish);
    assert_eq!(machine.finish(), Some(Err(Error::Transport)));
}

#[test]
fn handshake_rejects_a_read_of_the_wrong_length() {
    let (machine, _) = Handshake::start();
    let (machine, _) = machine.step(Event::Sent);
    let (machine, action) = machine.step(Event::Paused);
    assert_eq!(action, Action::Receive(1));
    let (machine, action) = machine.step(Event::Received(vec![0x06, 0x06]));
    assert_eq!(action, Action::Finish);
    assert_eq!(machine.finish(), Some(Err(Error::Transport)));
}

#[test]
fn handshake_has_no_outcome_while_it_runs() {
    let (machine, action) = Handshake::start();
    assert_eq!(action, Action::Send(MAGIC.to_vec()));
    assert!(!machine.is_finished());
    assert_eq!(machine.finish(), None);
}

#[test]
fn handshake_stays_finished() {
    let (machine, _) = Handshake::start();
    let (machine, _) = machine.step(Event::Failed);
    let (machine, action) = machine.step(Event::Sent);
    assert_eq!(action, Action::Finish);
    assert_eq!(machine.finish(), Some(Err(Error::Transport)));
}

#[test]
fn handshake_phases_compare_by_value() {
    assert_eq!(HandshakePhase::Magic, HandshakePhase::Magic);
    assert_ne!(
        HandshakePhase::Failed(Error::Transport),
        HandshakePhase::Failed(Error::Protocol(ProtocolViolation::CloneRejected))
    );
}
