//! The handshake that identifies the radio and puts it into clone mode.

use crate::machine::{
    drive, emitted, lemma_drive_settles, received_byte, report, single_byte, unread, Action,
    ActionView, Event, EventView, Protocol, Session,
};
use crate::wire::{
    encode_magic, magic, Error, ProtocolViolation, ACK, IDENT_END, IDENT_MAX, IDENT_MIN,
    IDENT_REQUEST, SETTLE_MS,
};
use vstd::prelude::*;

verus! {

/// Where a handshake stands. Each phase but the last two is named after what
/// the machine is waiting for.
#[derive(Clone, Copy, Debug, PartialEq, Eq)]
pub enum HandshakePhase {
    /// The magic sequence is being written.
    Magic,
    /// The radio is given time to digest the magic.
    Settling,
    /// The acknowledgement of the magic is being read.
    Greeting,
    /// The ident request is being written.
    Request,
    /// The next byte of the ident is being read.
    Collecting,
    /// The acknowledgement of the ident is being written.
    Confirm,
    /// The radio's confirmation of clone mode is being read.
    Cloning,
    /// The radio is in clone mode and the ident is known.
    Done,
    /// The handshake was given up.
    Failed(Error),
}

/// The handshake machine. Obtain one with [`Handshake::start`], feed it with
/// [`Handshake::step`], and collect the ident with [`Handshake::finish`].
pub struct Handshake {
    phase: HandshakePhase,
    ident: Vec<u8>,
}

/// Mathematical state of a [`Handshake`].
#[verifier::ext_equal]
pub struct HandshakeView {
    pub phase: HandshakePhase,
    /// The ident bytes collected so far.
    pub ident: Seq<u8>,
}

impl View for Handshake {
    type V = HandshakeView;

    closed spec fn view(&self) -> HandshakeView {
        HandshakeView { phase: self.phase, ident: self.ident@ }
    }
}

impl HandshakeView {
    /// State of a handshake that has just asked for the magic to be written.
    pub open spec fn initial() -> HandshakeView {
        HandshakeView { phase: HandshakePhase::Magic, ident: Seq::empty() }
    }

    /// This state, moved to `phase`.
    pub open spec fn at(self, phase: HandshakePhase) -> HandshakeView {
        HandshakeView { phase, ..self }
    }

    /// This state, given up for `error`.
    pub open spec fn fail(self, error: Error) -> (HandshakeView, ActionView) {
        (self.at(HandshakePhase::Failed(error)), ActionView::Finish)
    }

    /// What holds of every state that a handshake can reach: the ident
    /// collected holds no terminator and is as long as the phase allows.
    pub open spec fn wf(self) -> bool {
        &&& forall|i: int| 0 <= i < self.ident.len() ==> self.ident[i] != IDENT_END
        &&& match self.phase {
            HandshakePhase::Magic
            | HandshakePhase::Settling
            | HandshakePhase::Greeting
            | HandshakePhase::Request => self.ident.len() == 0,
            HandshakePhase::Collecting => self.ident.len() < IDENT_MAX,
            HandshakePhase::Confirm | HandshakePhase::Cloning | HandshakePhase::Done => IDENT_MIN
                <= self.ident.len() <= IDENT_MAX,
            HandshakePhase::Failed(_) => self.ident.len() <= IDENT_MAX,
        }
    }

    /// The result of the handshake, once it has one.
    pub open spec fn outcome(self) -> Option<Result<Seq<u8>, Error>> {
        match self.phase {
            HandshakePhase::Done => Some(Ok(self.ident)),
            HandshakePhase::Failed(error) => Some(Err(error)),
            _ => None,
        }
    }
}

impl Protocol for HandshakeView {
    /// One step of the handshake. An event that does not answer the action
    /// that is pending counts as a failure of the line.
    open spec fn advance(self, event: EventView) -> (HandshakeView, ActionView) {
        match self.phase {
            HandshakePhase::Magic => if event is Sent {
                (self.at(HandshakePhase::Settling), ActionView::Pause(SETTLE_MS as nat))
            } else {
                self.fail(Error::Transport)
            },
            HandshakePhase::Settling => if event is Paused {
                (self.at(HandshakePhase::Greeting), ActionView::Receive(1))
            } else {
                self.fail(Error::Transport)
            },
            HandshakePhase::Greeting => match received_byte(event) {
                Some(byte) => if byte == ACK {
                    (self.at(HandshakePhase::Request), ActionView::Send(seq![IDENT_REQUEST]))
                } else {
                    self.fail(Error::Protocol(ProtocolViolation::HandshakeRejected))
                },
                None => self.fail(Error::Transport),
            },
            HandshakePhase::Request => if event is Sent {
                (self.at(HandshakePhase::Collecting), ActionView::Receive(1))
            } else {
                self.fail(Error::Transport)
            },
            HandshakePhase::Collecting => match received_byte(event) {
                Some(byte) => if byte == IDENT_END {
                    if self.ident.len() < IDENT_MIN {
                        self.fail(Error::Protocol(ProtocolViolation::InvalidIdentLength))
                    } else {
                        (self.at(HandshakePhase::Confirm), ActionView::Send(seq![ACK]))
                    }
                } else {
                    let longer = HandshakeView { ident: self.ident.push(byte), ..self };
                    if longer.ident.len() >= IDENT_MAX {
                        (longer.at(HandshakePhase::Confirm), ActionView::Send(seq![ACK]))
                    } else {
                        (longer, ActionView::Receive(1))
                    }
                },
                None => self.fail(Error::Transport),
            },
            HandshakePhase::Confirm => if event is Sent {
                (self.at(HandshakePhase::Cloning), ActionView::Receive(1))
            } else {
                self.fail(Error::Transport)
            },
            HandshakePhase::Cloning => match received_byte(event) {
                Some(byte) => if byte == ACK {
                    (self.at(HandshakePhase::Done), ActionView::Finish)
                } else {
                    self.fail(Error::Protocol(ProtocolViolation::CloneRejected))
                },
                None => self.fail(Error::Transport),
            },
            HandshakePhase::Done | HandshakePhase::Failed(_) => (self, ActionView::Finish),
        }
    }
}

impl Handshake {
    #[verifier::type_invariant]
    spec fn inv(self) -> bool {
        self@.wf()
    }

    /// Begins a handshake: the machine, and the magic sequence for the driver to write.
    pub fn start() -> (r: (Handshake, Action))
        ensures
            r.0@ == HandshakeView::initial(),
            r.1@ == ActionView::Send(magic()),
    {
        (Handshake { phase: HandshakePhase::Magic, ident: Vec::new() }, Action::Send(encode_magic()))
    }

    /// Takes the driver's report on the pending action and answers with the next one.
    pub fn step(self, event: Event) -> (r: (Handshake, Action))
        ensures
            r.0@ == self@.advance(event@).0,
            r.1@ == self@.advance(event@).1,
            r.0@.wf(),
    {
        proof {
            use_type_invariant(&self);
        }
        let Handshake { phase, mut ident } = self;
        let byte = single_byte(&event);
        let (next, action) = match phase {
            HandshakePhase::Magic => match event {
                Event::Sent => (HandshakePhase::Settling, Action::Pause(SETTLE_MS)),
                _ => (HandshakePhase::Failed(Error::Transport), Action::Finish),
            },
            HandshakePhase::Settling => match event {
                Event::Paused => (HandshakePhase::Greeting, Action::Receive(1)),
                _ => (HandshakePhase::Failed(Error::Transport), Action::Finish),
            },
            HandshakePhase::Greeting => match byte {
                Some(b) => if b == ACK {
                    let request = vec![IDENT_REQUEST];
                    assert(request@ =~= seq![IDENT_REQUEST]);
                    (HandshakePhase::Request, Action::Send(request))
                } else {
                    (
                        HandshakePhase::Failed(
                            Error::Protocol(ProtocolViolation::HandshakeRejected),
                        ),
                        Action::Finish,
                    )
                },
                None => (HandshakePhase::Failed(Error::Transport), Action::Finish),
            },
            HandshakePhase::Request => match event {
                Event::Sent => (HandshakePhase::Collecting, Action::Receive(1)),
                _ => (HandshakePhase::Failed(Error::Transport), Action::Finish),
            },
            HandshakePhase::Collecting => match byte {
                Some(b) => if b == IDENT_END {
                    if ident.len() < IDENT_MIN {
                        (
                            HandshakePhase::Failed(
                                Error::Protocol(ProtocolViolation::InvalidIdentLength),
                            ),
                            Action::Finish,
                        )
                    } else {
                        let ack = vec![ACK];
                        assert(ack@ =~= seq![ACK]);
                        (HandshakePhase::Confirm, Action::Send(ack))
                    }
                } else {
                    ident.push(b);
                    if ident.len() >= IDENT_MAX {
                        let ack = vec![ACK];
                        assert(ack@ =~= seq![ACK]);
                        (HandshakePhase::Confirm, Action::Send(ack))
                    } else {
                        (HandshakePhase::Collecting, Action::Receive(1))
                    }
                },
                None => (HandshakePhase::Failed(Error::Transport), Action::Finish),
            },
            HandshakePhase::Confirm => match event {
                Event::Sent => (HandshakePhase::Cloning, Action::Receive(1)),
                _ => (HandshakePhase::Failed(Error::Transport), Action::Finish),
            },
            HandshakePhase::Cloning => match byte {
                Some(b) => if b == ACK {
                    (HandshakePhase::Done, Action::Finish)
                } else {
                    (
                        HandshakePhase::Failed(Error::Protocol(ProtocolViolation::CloneRejected)),
                        Action::Finish,
                    )
                },
                None => (HandshakePhase::Failed(Error::Transport), Action::Finish),
            },
            HandshakePhase::Done => (HandshakePhase::Done, Action::Finish),
            HandshakePhase::Failed(error) => (HandshakePhase::Failed(error), Action::Finish),
        };
        (Handshake { phase: next, ident }, action)
    }

    /// Whether the handshake has reached its outcome.
    pub fn is_finished(&self) -> (done: bool)
        ensures
            done == self@.outcome().is_some(),
    {
        match self.phase {
            HandshakePhase::Done | HandshakePhase::Failed(_) => true,
            _ => false,
        }
    }

    /// The ident, or the reason for failure; `None` while the handshake is still running.
    pub fn finish(self) -> (r: Option<Result<Vec<u8>, Error>>)
        ensures
            match r {
                Some(Ok(ident)) => self@.outcome() == Some(Ok::<Seq<u8>, Error>(ident@))
                    && IDENT_MIN <= ident@.len() <= IDENT_MAX
                    && forall|i: int| 0 <= i < ident@.len() ==> ident@[i] != IDENT_END,
                Some(Err(error)) => self@.outcome() == Some(Err::<Seq<u8>, Error>(error)),
                None => self@.outcome().is_none(),
            },
    {
        proof {
            use_type_invariant(&self);
        }
        match self.phase {
            HandshakePhase::Done => Some(Ok(self.ident)),
            HandshakePhase::Failed(error) => Some(Err(error)),
            _ => None,
        }
    }
}

/// Every step of a handshake keeps its state well-formed.
pub proof fn lemma_handshake_keeps_wf(state: HandshakeView, event: EventView)
    requires
        state.wf(),
    ensures
        state.advance(event).0.wf(),
{
}

/// A handshake answers with [`Action::Finish`] exactly when it has reached its outcome.
pub proof fn lemma_handshake_finishes_with_outcome(state: HandshakeView, event: EventView)
    ensures
        state.advance(event).1 is Finish <==> state.advance(event).0.outcome().is_some(),
{
}

/// Steps within which every handshake finishes.
pub const HANDSHAKE_STEPS: usize = 18;

/// Where the ident ends in `body`, the radio's output after it has
/// acknowledged the magic: at the first terminator at or after `from`, at
/// [`IDENT_MAX`], or where the output runs out, whichever comes first.
pub open spec fn ident_span(body: Seq<u8>, from: nat) -> nat
    decreases IDENT_MAX - from,
{
    if from >= IDENT_MAX || from >= body.len() || body[from as int] == IDENT_END {
        from
    } else {
        ident_span(body, from + 1)
    }
}

/// Index in `body` of the byte that confirms clone mode: just behind the
/// ident, and behind its terminator where it has one.
pub open spec fn confirmation_at(body: Seq<u8>, from: nat) -> nat {
    let end = ident_span(body, from);
    if end < IDENT_MAX {
        end + 1
    } else {
        end
    }
}

/// What the handshake comes to once the magic is acknowledged, `from` bytes
/// of ident are in and none of them is a terminator.
pub open spec fn collected(body: Seq<u8>, from: nat) -> Result<Seq<u8>, Error> {
    let end = ident_span(body, from);
    let confirmation = confirmation_at(body, from);
    if end < IDENT_MAX && end >= body.len() {
        Err(Error::Transport)
    } else if end < IDENT_MIN {
        Err(Error::Protocol(ProtocolViolation::InvalidIdentLength))
    } else if confirmation >= body.len() {
        Err(Error::Transport)
    } else if body[confirmation as int] != ACK {
        Err(Error::Protocol(ProtocolViolation::CloneRejected))
    } else {
        Ok(body.take(end as int))
    }
}

/// What the handshake comes to against a radio that sends `replies`: the
/// bytes before the terminator, or all [`IDENT_MAX`] where there is none, if
/// both acknowledgements arrive and the ident is long enough.
pub open spec fn identify(replies: Seq<u8>) -> Result<Seq<u8>, Error> {
    if replies.len() == 0 {
        Err(Error::Transport)
    } else if replies[0] != ACK {
        Err(Error::Protocol(ProtocolViolation::HandshakeRejected))
    } else {
        collected(replies.skip(1), 0)
    }
}

/// How many of the radio's bytes a successful handshake reads.
pub open spec fn identify_reads(replies: Seq<u8>) -> nat {
    confirmation_at(replies.skip(1), 0) + 2
}

/// The frames that a successful handshake writes: the magic, the ident
/// request and the acknowledgement of the ident.
pub open spec fn identify_frames() -> Seq<Seq<u8>> {
    seq![magic(), seq![IDENT_REQUEST], seq![ACK]]
}

/// What a radio with this ident sends during a handshake it accepts.
pub open spec fn identify_replies(ident: Seq<u8>) -> Seq<u8> {
    if ident.len() < IDENT_MAX {
        seq![ACK] + ident + seq![IDENT_END, ACK]
    } else {
        seq![ACK] + ident + seq![ACK]
    }
}

/// Whether `ident` is one that a handshake can return.
pub open spec fn valid_ident(ident: Seq<u8>) -> bool {
    &&& IDENT_MIN <= ident.len() <= IDENT_MAX
    &&& forall|i: int| 0 <= i < ident.len() ==> ident[i] != IDENT_END
}

proof fn lemma_ident_span(body: Seq<u8>, from: nat, end: nat)
    requires
        from <= end <= IDENT_MAX,
        end <= body.len(),
        forall|i: int| from <= i < end ==> body[i] != IDENT_END,
        end == IDENT_MAX || (end < body.len() && body[end as int] == IDENT_END),
    ensures
        ident_span(body, from) == end,
    decreases end - from,
{
    if from < end {
        lemma_ident_span(body, from + 1, end);
    }
}

proof fn lemma_confirming(state: HandshakeView, rest: Seq<u8>, file: Seq<u8>)
    requires
        state.phase == HandshakePhase::Confirm,
    ensures
        ({
            let s = drive(state, ActionView::Send(seq![ACK]), rest, file, 2);
            &&& s.finished
            &&& s.sent == seq![seq![ACK]]
            &&& s.state.outcome() == Some(
                if rest.len() == 0 {
                    Err::<Seq<u8>, Error>(Error::Transport)
                } else if rest[0] != ACK {
                    Err(Error::Protocol(ProtocolViolation::CloneRejected))
                } else {
                    Ok(state.ident)
                },
            )
            &&& rest.len() > 0 ==> s.unread == rest.skip(1)
        }),
{
    reveal_with_fuel(drive, 3);
    let s = drive(state, ActionView::Send(seq![ACK]), rest, file, 2);
    if rest.len() > 0 {
        assert(rest.take(1)[0] == rest[0]);
    }
    assert(s.sent =~= seq![seq![ACK]]);
}

proof fn lemma_collecting(state: HandshakeView, body: Seq<u8>, from: nat, file: Seq<u8>)
    requires
        state.phase == HandshakePhase::Collecting,
        state.ident == body.take(from as int),
        from < IDENT_MAX,
        from <= body.len(),
    ensures
        ({
            let s = drive(
                state,
                ActionView::Receive(1),
                body.skip(from as int),
                file,
                (IDENT_MAX - from + 2) as nat,
            );
            &&& s.finished
            &&& s.state.outcome() == Some(collected(body, from))
            &&& s.state.outcome() matches Some(Ok(_)) ==> {
                &&& s.sent == seq![seq![ACK]]
                &&& s.unread == body.skip(confirmation_at(body, from) as int + 1)
            }
        }),
    decreases IDENT_MAX - from,
{
    reveal_with_fuel(drive, 2);
    reveal_with_fuel(ident_span, 2);
    let rest = body.skip(from as int);
    let steps = (IDENT_MAX - from + 2) as nat;
    let s = drive(state, ActionView::Receive(1), rest, file, steps);
    let event = report(ActionView::Receive(1), rest, file);
    let (state1, action1) = state.advance(event);
    let left = unread(ActionView::Receive(1), rest);
    assert(s == Session {
        sent: emitted(ActionView::Receive(1)) + drive(
            state1,
            action1,
            left,
            file,
            (steps - 1) as nat,
        ).sent,
        ..drive(state1, action1, left, file, (steps - 1) as nat)
    });
    if from >= body.len() {
        assert(event is Failed);
    } else {
        let byte = body[from as int];
        assert(rest.take(1)[0] == byte);
        assert(left =~= body.skip(from as int + 1));
        if byte == IDENT_END {
            if from >= IDENT_MIN {
                lemma_confirming(state1, left, file);
                lemma_drive_settles(
                    state1,
                    action1,
                    left,
                    file,
                    2,
                    (steps - 1) as nat,
                );
                if left.len() > 0 {
                    assert(left[0] == body[from as int + 1]);
                    assert(left.skip(1) =~= body.skip(from as int + 2));
                }
                assert(s.sent =~= drive(state1, action1, left, file, 2).sent);
            }
        } else {
            assert(state1.ident =~= body.take(from as int + 1));
            if from + 1 >= IDENT_MAX {
                lemma_confirming(state1, left, file);
                lemma_drive_settles(
                    state1,
                    action1,
                    left,
                    file,
                    2,
                    (steps - 1) as nat,
                );
                if left.len() > 0 {
                    assert(left[0] == body[from as int + 1]);
                    assert(left.skip(1) =~= body.skip(from as int + 2));
                }
                assert(s.sent =~= drive(state1, action1, left, file, 2).sent);
            } else {
                lemma_collecting(state1, body, from + 1, file);
                assert(s.sent =~= drive(state1, action1, left, file, (steps - 1) as nat).sent);
            }
        }
    }
}

/// The handshake machine, driven against a radio that sends `replies`,
/// finishes within [`HANDSHAKE_STEPS`] steps with the outcome that
/// [`identify`] gives. Where that is an ident, the machine has written the
/// three frames of [`identify_frames`] and has read [`identify_reads`] bytes.
pub proof fn lemma_handshake_conversation(replies: Seq<u8>, file: Seq<u8>)
    ensures
        ({
            let s = drive(
                HandshakeView::initial(),
                ActionView::Send(magic()),
                replies,
                file,
                HANDSHAKE_STEPS as nat,
            );
            &&& s.finished
            &&& s.state.outcome() == Some(identify(replies))
            &&& identify(replies) is Ok ==> {
                &&& s.sent == identify_frames()
                &&& identify_reads(replies) <= replies.len()
                &&& s.unread == replies.skip(identify_reads(replies) as int)
            }
        }),
{
    reveal_with_fuel(drive, 5);
    let s = drive(
        HandshakeView::initial(),
        ActionView::Send(magic()),
        replies,
        file,
        HANDSHAKE_STEPS as nat,
    );
    if replies.len() > 0 {
        assert(replies.take(1)[0] == replies[0]);
        if replies[0] == ACK {
            let body = replies.skip(1);
            let state = HandshakeView::initial().at(HandshakePhase::Collecting);
            assert(state.ident =~= body.take(0));
            assert(body.skip(0) =~= body);
            lemma_collecting(state, body, 0, file);
            if identify(replies) is Ok {
                assert(s.sent =~= identify_frames());
                assert(body.skip(confirmation_at(body, 0) as int + 1) =~= replies.skip(
                    identify_reads(replies) as int,
                ));
            }
        }
    }
}

/// A radio with a valid ident, that acknowledges the magic, sends the ident,
/// ends it with the terminator unless it is of full length, and confirms
/// clone mode, is identified by exactly that ident, whatever it sends after:
/// so [`identify`] has it, and so the machine ends.
pub proof fn lemma_identify_returns_ident(ident: Seq<u8>, after: Seq<u8>)
    requires
        valid_ident(ident),
    ensures
        identify(identify_replies(ident) + after) == Ok::<Seq<u8>, Error>(ident),
        identify_reads(identify_replies(ident) + after) == identify_replies(ident).len(),
        forall|file: Seq<u8>|
            (#[trigger] drive(
                HandshakeView::initial(),
                ActionView::Send(magic()),
                identify_replies(ident) + after,
                file,
                HANDSHAKE_STEPS as nat,
            )).state.outcome() == Some(Ok::<Seq<u8>, Error>(ident)),
{
    assert forall|file: Seq<u8>|
        (#[trigger] drive(
            HandshakeView::initial(),
            ActionView::Send(magic()),
            identify_replies(ident) + after,
            file,
            HANDSHAKE_STEPS as nat,
        )).state.outcome() == Some(identify(identify_replies(ident) + after)) by {
        lemma_handshake_conversation(identify_replies(ident) + after, file);
    }
    let replies = identify_replies(ident) + after;
    let body = replies.skip(1);
    let end = ident.len() as int;
    assert(replies[0] == ACK);
    assert forall|i: int| 0 <= i < end implies body[i] == ident[i] by {
        assert(body[i] == replies[i + 1]);
    }
    if end < IDENT_MAX {
        assert(body[end] == replies[end + 1]);
        assert(body[end + 1] == replies[end + 2]);
    } else {
        assert(body[end] == replies[end + 1]);
    }
    lemma_ident_span(body, 0, end as nat);
    assert(body.take(end) =~= ident);
}

} // verus!
