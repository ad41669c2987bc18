//! The interface between a protocol machine and whoever drives it.
//!
//! A machine never touches the serial line. It hands out an [`Action`], the
//! driver performs it and reports back with an [`Event`], and the machine
//! answers with the next action, until it says [`Action::Finish`]. What a
//! machine does against a given radio is therefore a pure function of what the
//! radio sends, which [`drive`] spells out.

use vstd::prelude::*;

verus! {

/// What a machine asks its driver to do next.
#[derive(Debug, PartialEq, Eq)]
pub enum Action {
    /// Write all of these bytes to the serial line; answer with [`Event::Sent`].
    Send(Vec<u8>),
    /// Read exactly this many bytes; answer with [`Event::Received`].
    Receive(usize),
    /// Wait this many milliseconds; answer with [`Event::Paused`].
    Pause(u64),
    /// Fetch the image that is to be uploaded; answer with [`Event::Loaded`].
    Load,
    /// Nothing more to do: the machine has reached its outcome.
    Finish,
}

/// What the driver reports back.
#[derive(Debug, PartialEq, Eq)]
pub enum Event {
    /// The bytes were written.
    Sent,
    /// The bytes that were read, as many as were asked for.
    Received(Vec<u8>),
    /// The wait is over.
    Paused,
    /// The image to upload.
    Loaded(Vec<u8>),
    /// The serial line failed or timed out.
    Failed,
}

/// Mathematical value of an [`Action`].
pub enum ActionView {
    Send(Seq<u8>),
    Receive(nat),
    Pause(nat),
    Load,
    Finish,
}

/// Mathematical value of an [`Event`].
pub enum EventView {
    Sent,
    Received(Seq<u8>),
    Paused,
    Loaded(Seq<u8>),
    Failed,
}

impl View for Action {
    type V = ActionView;

    open spec fn view(&self) -> ActionView {
        match *self {
            Action::Send(bytes) => ActionView::Send(bytes@),
            Action::Receive(count) => ActionView::Receive(count as nat),
            Action::Pause(millis) => ActionView::Pause(millis as nat),
            Action::Load => ActionView::Load,
            Action::Finish => ActionView::Finish,
        }
    }
}

impl View for Event {
    type V = EventView;

    open spec fn view(&self) -> EventView {
        match *self {
            Event::Sent => EventView::Sent,
            Event::Received(bytes) => EventView::Received(bytes@),
            Event::Paused => EventView::Paused,
            Event::Loaded(image) => EventView::Loaded(image@),
            Event::Failed => EventView::Failed,
        }
    }
}

/// The one byte of a single-byte read, if that is what `event` reports.
pub open spec fn received_byte(event: EventView) -> Option<u8> {
    match event {
        EventView::Received(bytes) => if bytes.len() == 1 {
            Some(bytes[0])
        } else {
            None
        },
        _ => None,
    }
}

/// The bytes of a read of `count` bytes, if that is what `event` reports.
pub open spec fn received_exactly(event: EventView, count: nat) -> Option<Seq<u8>> {
    match event {
        EventView::Received(bytes) => if bytes.len() == count {
            Some(bytes)
        } else {
            None
        },
        _ => None,
    }
}

/// The byte of a single-byte read, if that is what `event` reports.
pub fn single_byte(event: &Event) -> (byte: Option<u8>)
    ensures
        byte == received_byte(event@),
{
    match event {
        Event::Received(bytes) => if bytes.len() == 1 {
            Some(bytes[0])
        } else {
            None
        },
        _ => None,
    }
}

/// The bytes of a read of `count` bytes, if that is what `event` reports.
pub fn exact_bytes(event: Event, count: usize) -> (bytes: Option<Vec<u8>>)
    ensures
        match bytes {
            Some(b) => received_exactly(event@, count as nat) == Some(b@),
            None => received_exactly(event@, count as nat).is_none(),
        },
{
    match event {
        Event::Received(bytes) => if bytes.len() == count {
            Some(bytes)
        } else {
            None
        },
        _ => None,
    }
}

/// The transition function of a machine, over its mathematical state.
pub trait Protocol: Sized {
    /// The state after `event`, and the action the machine answers with.
    spec fn advance(self, event: EventView) -> (Self, ActionView);
}

/// What a faultless driver reports for `action` when the radio's remaining
/// output is `replies` and the image on offer is `file`. A read of more bytes
/// than the radio sends times out.
pub open spec fn report(action: ActionView, replies: Seq<u8>, file: Seq<u8>) -> EventView {
    match action {
        ActionView::Send(_) => EventView::Sent,
        ActionView::Pause(_) => EventView::Paused,
        ActionView::Load => EventView::Loaded(file),
        ActionView::Receive(count) => if count <= replies.len() {
            EventView::Received(replies.take(count as int))
        } else {
            EventView::Failed
        },
        ActionView::Finish => EventView::Failed,
    }
}

/// The radio's output that is still unread once `action` has been performed.
pub open spec fn unread(action: ActionView, replies: Seq<u8>) -> Seq<u8> {
    match action {
        ActionView::Receive(count) => if count <= replies.len() {
            replies.skip(count as int)
        } else {
            replies
        },
        _ => replies,
    }
}

/// The frame that `action` puts on the line, if any.
pub open spec fn emitted(action: ActionView) -> Seq<Seq<u8>> {
    match action {
        ActionView::Send(bytes) => seq![bytes],
        _ => Seq::empty(),
    }
}

/// A machine's whole conversation with a radio.
#[verifier::ext_equal]
pub struct Session<P> {
    /// State in which the conversation ended.
    pub state: P,
    /// The frames written to the line, in order.
    pub sent: Seq<Seq<u8>>,
    /// What the radio sent and the machine never read.
    pub unread: Seq<u8>,
    /// Whether the machine reached [`Action::Finish`] within the steps allowed.
    pub finished: bool,
}

/// Runs a machine that is in `state` and has just asked for `action`, against
/// a radio that will send `replies` and a driver that offers `file` for
/// upload, for at most `steps` actions.
pub open spec fn drive<P: Protocol>(
    state: P,
    action: ActionView,
    replies: Seq<u8>,
    file: Seq<u8>,
    steps: nat,
) -> Session<P>
    decreases steps,
{
    if action is Finish {
        Session { state, sent: Seq::empty(), unread: replies, finished: true }
    } else if steps == 0 {
        Session { state, sent: Seq::empty(), unread: replies, finished: false }
    } else {
        let (state1, action1) = state.advance(report(action, replies, file));
        let rest = drive(state1, action1, unread(action, replies), file, (steps - 1) as nat);
        Session { sent: emitted(action) + rest.sent, ..rest }
    }
}

/// A conversation that finished within some number of steps ends the same way
/// however many more are allowed.
pub proof fn lemma_drive_settles<P: Protocol>(
    state: P,
    action: ActionView,
    replies: Seq<u8>,
    file: Seq<u8>,
    steps: nat,
    more: nat,
)
    requires
        drive(state, action, replies, file, steps).finished,
        more >= steps,
    ensures
        drive(state, action, replies, file, more) == drive(state, action, replies, file, steps),
    decreases steps,
{
    if !(action is Finish) && steps > 0 {
        let (state1, action1) = state.advance(report(action, replies, file));
        lemma_drive_settles(
            state1,
            action1,
            unread(action, replies),
            file,
            (steps - 1) as nat,
            (more - 1) as nat,
        );
    }
}

/// A machine that hands its events to an inner machine until that one
/// finishes, and then goes on by itself, converses as the inner machine does
/// and then as its own continuation does on what the inner one left unread.
///
/// `wrap` is the outer state around an inner state, and `resume` is the outer
/// state and action that follow the inner machine's last state.
pub proof fn lemma_drive_nested<O: Protocol, I: Protocol>(
    wrap: spec_fn(I) -> O,
    resume: spec_fn(I) -> (O, ActionView),
    inner: I,
    action: ActionView,
    replies: Seq<u8>,
    file: Seq<u8>,
    inner_steps: nat,
    steps: nat,
)
    requires
        !(action is Finish),
        forall|i: I, e: EventView| #[trigger]
            wrap(i).advance(e) == if i.advance(e).1 is Finish {
                resume(i.advance(e).0)
            } else {
                (wrap(i.advance(e).0), i.advance(e).1)
            },
        drive(inner, action, replies, file, inner_steps).finished,
        steps >= inner_steps,
        ({
            let done = drive(inner, action, replies, file, inner_steps);
            let (outer, next) = resume(done.state);
            drive(outer, next, done.unread, file, (steps - inner_steps) as nat).finished
        }),
    ensures
        ({
            let done = drive(inner, action, replies, file, inner_steps);
            let (outer, next) = resume(done.state);
            let rest = drive(outer, next, done.unread, file, (steps - inner_steps) as nat);
            drive(wrap(inner), action, replies, file, steps) == (Session {
                sent: done.sent + rest.sent,
                ..rest
            })
        }),
    decreases inner_steps,
{
    let done = drive(inner, action, replies, file, inner_steps);
    let (outer, next) = resume(done.state);
    let rest = drive(outer, next, done.unread, file, (steps - inner_steps) as nat);
    let event = report(action, replies, file);
    let (inner1, action1) = inner.advance(event);
    let left = unread(action, replies);
    assert(inner_steps > 0);
    assert(wrap(inner).advance(event) == if action1 is Finish {
        resume(inner1)
    } else {
        (wrap(inner1), action1)
    });
    if action1 is Finish {
        assert(done.state == inner1);
        assert(done.unread == left);
        lemma_drive_settles(
            outer,
            next,
            left,
            file,
            (steps - inner_steps) as nat,
            (steps - 1) as nat,
        );
        assert(drive(wrap(inner), action, replies, file, steps) =~= (Session {
            sent: done.sent + rest.sent,
            ..rest
        }));
    } else {
        lemma_drive_nested(
            wrap,
            resume,
            inner1,
            action1,
            left,
            file,
            (inner_steps - 1) as nat,
            (steps - 1) as nat,
        );
        let done1 = drive(inner1, action1, left, file, (inner_steps - 1) as nat);
        assert(done.sent == emitted(action) + done1.sent);
        assert(drive(wrap(inner), action, replies, file, steps) =~= (Session {
            sent: done.sent + rest.sent,
            ..rest
        }));
    }
}

} // verus!
