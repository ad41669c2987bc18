//! The two block exchanges: reading a block from the radio and writing one to it.

use crate::machine::{
    drive, exact_bytes, received_byte, received_exactly, single_byte, Action, ActionView, Event,
    EventView, Protocol,
};
use crate::wire::{
    addr_of, check_read_header, data_header, encode_read_request, encode_write_frame,
    header_verdict, read_request, write_frame, Error, ProtocolViolation, ACK, DATA_TAG, MAX_READ,
};
use vstd::prelude::*;

verus! {

/// Length of the header that precedes the payload of a read response.
pub const HEADER_SIZE: usize = 4;

/// Where the reading of a block stands.
#[derive(Clone, Copy, Debug, PartialEq, Eq)]
pub enum ReadPhase {
    /// The request is being written.
    Request,
    /// The radio's acknowledgement of the block before this one is being read.
    Ack,
    /// The response header is being read.
    Header,
    /// The payload is being read.
    Payload,
    /// The closing acknowledgement is being written.
    Closing,
    /// The payload has arrived and has been acknowledged.
    Done,
    /// The exchange was given up.
    Failed(Error),
}

/// The machine that reads one block. Whether the block is the first of its
/// session is said when it is started, not guessed: the radio acknowledges the
/// previous block before it answers any request but the first.
pub struct ReadBlock {
    address: u16,
    size: u8,
    first: bool,
    phase: ReadPhase,
    payload: Vec<u8>,
}

/// Mathematical state of a [`ReadBlock`].
#[verifier::ext_equal]
pub struct ReadBlockView {
    pub address: u16,
    pub size: u8,
    pub first: bool,
    pub phase: ReadPhase,
    pub payload: Seq<u8>,
}

impl View for ReadBlock {
    type V = ReadBlockView;

    closed spec fn view(&self) -> ReadBlockView {
        ReadBlockView {
            address: self.address,
            size: self.size,
            first: self.first,
            phase: self.phase,
            payload: self.payload@,
        }
    }
}

impl ReadBlockView {
    /// State of a read that has just asked for its request to be written.
    pub open spec fn initial(address: u16, size: u8, first: bool) -> ReadBlockView {
        ReadBlockView { address, size, first, phase: ReadPhase::Request, payload: Seq::empty() }
    }

    /// This state, moved to `phase`.
    pub open spec fn at(self, phase: ReadPhase) -> ReadBlockView {
        ReadBlockView { phase, ..self }
    }

    /// This state, given up for `error`.
    pub open spec fn fail(self, error: Error) -> (ReadBlockView, ActionView) {
        (self.at(ReadPhase::Failed(error)), ActionView::Finish)
    }

    /// What holds of every state that a read can reach: the payload is empty
    /// until it has arrived, and then as long as was asked for.
    pub open spec fn wf(self) -> bool {
        &&& self.size <= MAX_READ
        &&& match self.phase {
            ReadPhase::Closing | ReadPhase::Done => self.payload.len() == self.size,
            ReadPhase::Failed(_) => self.payload.len() <= self.size,
            _ => self.payload.len() == 0,
        }
    }

    /// The result of the read, once it has one.
    pub open spec fn outcome(self) -> Option<Result<Seq<u8>, Error>> {
        match self.phase {
            ReadPhase::Done => Some(Ok(self.payload)),
            ReadPhase::Failed(error) => Some(Err(error)),
            _ => None,
        }
    }
}

impl Protocol for ReadBlockView {
    /// One step of a read. An event that does not answer the action that is
    /// pending counts as a failure of the line.
    open spec fn advance(self, event: EventView) -> (ReadBlockView, ActionView) {
        match self.phase {
            ReadPhase::Request => if event is Sent {
                if self.first {
                    (self.at(ReadPhase::Header), ActionView::Receive(HEADER_SIZE as nat))
                } else {
                    (self.at(ReadPhase::Ack), ActionView::Receive(1))
                }
            } else {
                self.fail(Error::Transport)
            },
            ReadPhase::Ack => match received_byte(event) {
                Some(byte) => if byte == ACK {
                    (self.at(ReadPhase::Header), ActionView::Receive(HEADER_SIZE as nat))
                } else {
                    self.fail(Error::Protocol(ProtocolViolation::ReadRejected))
                },
                None => self.fail(Error::Transport),
            },
            ReadPhase::Header => match received_exactly(event, HEADER_SIZE as nat) {
                Some(header) => match header_verdict(header, self.address, self.size) {
                    Ok(_) => (self.at(ReadPhase::Payload), ActionView::Receive(self.size as nat)),
                    Err(violation) => self.fail(Error::Protocol(violation)),
                },
                None => self.fail(Error::Transport),
            },
            ReadPhase::Payload => match received_exactly(event, self.size as nat) {
                Some(payload) => (
                    ReadBlockView { payload, ..self.at(ReadPhase::Closing) },
                    ActionView::Send(seq![ACK]),
                ),
                None => self.fail(Error::Transport),
            },
            ReadPhase::Closing => if event is Sent {
                (self.at(ReadPhase::Done), ActionView::Finish)
            } else {
                self.fail(Error::Transport)
            },
            ReadPhase::Done | ReadPhase::Failed(_) => (self, ActionView::Finish),
        }
    }
}

impl ReadBlock {
    #[verifier::type_invariant]
    spec fn inv(self) -> bool {
        self@.wf()
    }

    /// Begins the read of `size` bytes at `address`: the machine, and the
    /// request for the driver to write. `first` says whether this is the
    /// first block exchange since the handshake.
    pub fn start(address: u16, size: u8, first: bool) -> (r: (ReadBlock, Action))
        requires
            size <= MAX_READ,
        ensures
            r.0@ == ReadBlockView::initial(address, size, first),
            r.1@ == ActionView::Send(read_request(address, size)),
    {
        (
            ReadBlock { address, size, first, phase: ReadPhase::Request, payload: Vec::new() },
            Action::Send(encode_read_request(address, size)),
        )
    }

    /// Takes the driver's report on the pending action and answers with the next one.
    pub fn step(self, event: Event) -> (r: (ReadBlock, Action))
        ensures
            r.0@ == self@.advance(event@).0,
            r.1@ == self@.advance(event@).1,
            r.0@.wf(),
    {
        proof {
            use_type_invariant(&self);
        }
        let ReadBlock { address, size, first, phase, mut payload } = self;
        let byte = single_byte(&event);
        let (next, action) = match phase {
            ReadPhase::Request => match event {
                Event::Sent => if first {
                    (ReadPhase::Header, Action::Receive(HEADER_SIZE))
                } else {
                    (ReadPhase::Ack, Action::Receive(1))
                },
                _ => (ReadPhase::Failed(Error::Transport), Action::Finish),
            },
            ReadPhase::Ack => match byte {
                Some(b) => if b == ACK {
                    (ReadPhase::Header, Action::Receive(HEADER_SIZE))
                } else {
                    (
                        ReadPhase::Failed(Error::Protocol(ProtocolViolation::ReadRejected)),
                        Action::Finish,
                    )
                },
                None => (ReadPhase::Failed(Error::Transport), Action::Finish),
            },
            ReadPhase::Header => match exact_bytes(event, HEADER_SIZE) {
                Some(header) => match check_read_header(header.as_slice(), address, size) {
                    Ok(_) => (ReadPhase::Payload, Action::Receive(size as usize)),
                    Err(violation) => (
                        ReadPhase::Failed(Error::Protocol(violation)),
                        Action::Finish,
                    ),
                },
                None => (ReadPhase::Failed(Error::Transport), Action::Finish),
            },
            ReadPhase::Payload => match exact_bytes(event, size as usize) {
                Some(bytes) => {
                    payload = bytes;
                    let ack = vec![ACK];
                    assert(ack@ =~= seq![ACK]);
                    (ReadPhase::Closing, Action::Send(ack))
                },
                None => (ReadPhase::Failed(Error::Transport), Action::Finish),
            },
            ReadPhase::Closing => match event {
                Event::Sent => (ReadPhase::Done, Action::Finish),
                _ => (ReadPhase::Failed(Error::Transport), Action::Finish),
            },
            ReadPhase::Done => (ReadPhase::Done, Action::Finish),
            ReadPhase::Failed(error) => (ReadPhase::Failed(error), Action::Finish),
        };
        (ReadBlock { address, size, first, phase: next, payload }, action)
    }

    /// The payload, or the reason for failure; `None` while the read is still running.
    pub fn finish(self) -> (r: Option<Result<Vec<u8>, Error>>)
        ensures
            match r {
                Some(Ok(payload)) => self@.outcome() == Some(Ok::<Seq<u8>, Error>(payload@))
                    && payload@.len() == self@.size,
                Some(Err(error)) => self@.outcome() == Some(Err::<Seq<u8>, Error>(error)),
                None => self@.outcome().is_none(),
            },
    {
        proof {
            use_type_invariant(&self);
        }
        match self.phase {
            ReadPhase::Done => Some(Ok(self.payload)),
            ReadPhase::Failed(error) => Some(Err(error)),
            _ => None,
        }
    }
}

/// Where the writing of a block stands.
#[derive(Clone, Copy, Debug, PartialEq, Eq)]
pub enum SendPhase {
    /// The frame is being written.
    Frame,
    /// The radio's answer is being read.
    Ack,
    /// The radio has answered: `true` if it accepted the block, `false` if it
    /// answered with anything but an acknowledgement.
    Done(bool),
    /// The line failed before the radio answered.
    Failed(Error),
}

/// The machine that writes one block.
pub struct SendBlock {
    phase: SendPhase,
}

/// Mathematical state of a [`SendBlock`].
pub struct SendBlockView {
    pub phase: SendPhase,
}

impl View for SendBlock {
    type V = SendBlockView;

    closed spec fn view(&self) -> SendBlockView {
        SendBlockView { phase: self.phase }
    }
}

impl SendBlockView {
    /// State of a write that has just asked for its frame to be written.
    pub open spec fn initial() -> SendBlockView {
        SendBlockView { phase: SendPhase::Frame }
    }

    /// The result of the write, once it has one: whether the radio accepted
    /// the block, or the failure of the line.
    pub open spec fn outcome(self) -> Option<Result<bool, Error>> {
        match self.phase {
            SendPhase::Done(accepted) => Some(Ok(accepted)),
            SendPhase::Failed(error) => Some(Err(error)),
            _ => None,
        }
    }
}

impl Protocol for SendBlockView {
    /// One step of a write. An event that does not answer the action that is
    /// pending counts as a failure of the line; a byte that is no
    /// acknowledgement is a rejection, not a failure.
    open spec fn advance(self, event: EventView) -> (SendBlockView, ActionView) {
        match self.phase {
            SendPhase::Frame => if event is Sent {
                (SendBlockView { phase: SendPhase::Ack }, ActionView::Receive(1))
            } else {
                (SendBlockView { phase: SendPhase::Failed(Error::Transport) }, ActionView::Finish)
            },
            SendPhase::Ack => match received_byte(event) {
                Some(byte) => (
                    SendBlockView { phase: SendPhase::Done(byte == ACK) },
                    ActionView::Finish,
                ),
                None => (
                    SendBlockView { phase: SendPhase::Failed(Error::Transport) },
                    ActionView::Finish,
                ),
            },
            SendPhase::Done(_) | SendPhase::Failed(_) => (self, ActionView::Finish),
        }
    }
}

impl SendBlock {
    /// Begins the write of `data` at `address`: the machine, and the frame for
    /// the driver to write.
    pub fn start(address: u16, data: &[u8]) -> (r: (SendBlock, Action))
        requires
            data@.len() <= 255,
        ensures
            r.0@ == SendBlockView::initial(),
            r.1@ == ActionView::Send(write_frame(address, data@)),
    {
        (SendBlock { phase: SendPhase::Frame }, Action::Send(encode_write_frame(address, data)))
    }

    /// Takes the driver's report on the pending action and answers with the next one.
    pub fn step(self, event: Event) -> (r: (SendBlock, Action))
        ensures
            r.0@ == self@.advance(event@).0,
            r.1@ == self@.advance(event@).1,
    {
        let byte = single_byte(&event);
        let (next, action) = match self.phase {
            SendPhase::Frame => match event {
                Event::Sent => (SendPhase::Ack, Action::Receive(1)),
                _ => (SendPhase::Failed(Error::Transport), Action::Finish),
            },
            SendPhase::Ack => match byte {
                Some(b) => (SendPhase::Done(b == ACK), Action::Finish),
                None => (SendPhase::Failed(Error::Transport), Action::Finish),
            },
            SendPhase::Done(accepted) => (SendPhase::Done(accepted), Action::Finish),
            SendPhase::Failed(error) => (SendPhase::Failed(error), Action::Finish),
        };
        (SendBlock { phase: next }, action)
    }

    /// Whether the radio accepted the block, or the failure of the line;
    /// `None` while the write is still running.
    pub fn finish(self) -> (r: Option<Result<bool, Error>>)
        ensures
            r == self@.outcome(),
    {
        match self.phase {
            SendPhase::Done(accepted) => Some(Ok(accepted)),
            SendPhase::Failed(error) => Some(Err(error)),
            _ => None,
        }
    }
}

/// Every step of a read keeps its state well-formed.
pub proof fn lemma_read_keeps_wf(state: ReadBlockView, event: EventView)
    requires
        state.wf(),
    ensures
        state.advance(event).0.wf(),
{
}

/// A read answers with [`Action::Finish`] exactly when it has reached its outcome.
pub proof fn lemma_read_finishes_with_outcome(state: ReadBlockView, event: EventView)
    ensures
        state.advance(event).1 is Finish <==> state.advance(event).0.outcome().is_some(),
{
}

/// A write answers with [`Action::Finish`] exactly when it has reached its outcome.
pub proof fn lemma_send_finishes_with_outcome(state: SendBlockView, event: EventView)
    ensures
        state.advance(event).1 is Finish <==> state.advance(event).0.outcome().is_some(),
{
}

/// Steps within which every read of a block finishes.
pub const READ_STEPS: usize = 5;

/// Steps within which every write of a block finishes.
pub const SEND_STEPS: usize = 2;

/// Where the response header starts in the radio's output: behind the
/// acknowledgement of the previous block, which the first read does not get.
pub open spec fn header_at(first: bool) -> int {
    if first {
        0
    } else {
        1
    }
}

/// How many of the radio's bytes a successful read of `size` bytes reads.
pub open spec fn read_block_reads(size: u8, first: bool) -> int {
    header_at(first) + HEADER_SIZE + size
}

/// What the read of `size` bytes at `address` comes to against a radio that
/// sends `replies`: the payload, if the radio acknowledges where it has to,
/// echoes the request in its header and sends as many bytes as were asked for.
pub open spec fn read_block(address: u16, size: u8, first: bool, replies: Seq<u8>) -> Result<
    Seq<u8>,
    Error,
> {
    let at = header_at(first);
    if !first && replies.len() == 0 {
        Err(Error::Transport)
    } else if !first && replies[0] != ACK {
        Err(Error::Protocol(ProtocolViolation::ReadRejected))
    } else if replies.len() < at + HEADER_SIZE {
        Err(Error::Transport)
    } else {
        match header_verdict(replies.subrange(at, at + HEADER_SIZE), address, size) {
            Err(violation) => Err(Error::Protocol(violation)),
            Ok(_) => if replies.len() < read_block_reads(size, first) {
                Err(Error::Transport)
            } else {
                Ok(replies.subrange(at + HEADER_SIZE, read_block_reads(size, first)))
            },
        }
    }
}

/// What a radio sends in answer to a read of `payload.len()` bytes at
/// `address`, when it holds `payload` there.
pub open spec fn read_replies(address: u16, first: bool, payload: Seq<u8>) -> Seq<u8> {
    if first {
        data_header(address, payload.len() as u8) + payload
    } else {
        seq![ACK] + data_header(address, payload.len() as u8) + payload
    }
}

/// What the write of a block comes to against a radio that sends `replies`:
/// whether the radio's answer is an acknowledgement. Only a missing answer
/// is an error.
pub open spec fn send_block(replies: Seq<u8>) -> Result<bool, Error> {
    if replies.len() == 0 {
        Err(Error::Transport)
    } else {
        Ok(replies[0] == ACK)
    }
}

/// The machine that reads a block, driven against a radio that sends
/// `replies`, finishes within [`READ_STEPS`] steps with the outcome that
/// [`read_block`] gives. It acknowledges the payload if and only if the read
/// succeeds, and then has read [`read_block_reads`] bytes.
pub proof fn lemma_read_conversation(
    address: u16,
    size: u8,
    first: bool,
    replies: Seq<u8>,
    file: Seq<u8>,
)
    ensures
        ({
            let s = drive(
                ReadBlockView::initial(address, size, first),
                ActionView::Send(read_request(address, size)),
                replies,
                file,
                READ_STEPS as nat,
            );
            &&& s.finished
            &&& s.state.outcome() == Some(read_block(address, size, first, replies))
            &&& match read_block(address, size, first, replies) {
                Ok(payload) => {
                    &&& payload.len() == size
                    &&& s.sent == seq![read_request(address, size), seq![ACK]]
                    &&& s.unread == replies.skip(read_block_reads(size, first))
                },
                Err(_) => s.sent == seq![read_request(address, size)],
            }
        }),
{
    reveal_with_fuel(drive, 6);
    let s = drive(
        ReadBlockView::initial(address, size, first),
        ActionView::Send(read_request(address, size)),
        replies,
        file,
        READ_STEPS as nat,
    );
    let at = header_at(first);
    let body = replies.skip(at);
    if !first && replies.len() > 0 {
        assert(replies.take(1)[0] == replies[0]);
    }
    if first {
        assert(body =~= replies);
    }
    if replies.len() >= at + HEADER_SIZE {
        assert(body.take(HEADER_SIZE as int) =~= replies.subrange(at, at + HEADER_SIZE));
        let rest = body.skip(HEADER_SIZE as int);
        if replies.len() >= read_block_reads(size, first) {
            assert(rest.take(size as int) =~= replies.subrange(
                at + HEADER_SIZE,
                read_block_reads(size, first),
            ));
            assert(rest.skip(size as int) =~= replies.skip(read_block_reads(size, first)));
        }
    }
    match read_block(address, size, first, replies) {
        Ok(_) => {
            assert(s.sent =~= seq![read_request(address, size), seq![ACK]]);
        },
        Err(_) => {
            assert(s.sent =~= seq![read_request(address, size)]);
        },
    }
}

/// A read fails with a protocol violation whenever the radio's header
/// disagrees with the request, and the violation names the first disagreement:
/// the tag, then the echoed address, then the echoed size.
pub proof fn lemma_read_rejects_mismatch(
    address: u16,
    size: u8,
    first: bool,
    replies: Seq<u8>,
)
    requires
        first || (replies.len() > 0 && replies[0] == ACK),
        replies.len() >= header_at(first) + HEADER_SIZE,
    ensures
        ({
            let header = replies.subrange(header_at(first), header_at(first) + HEADER_SIZE);
            let result = read_block(address, size, first, replies);
            &&& header[0] != DATA_TAG ==> result == Err::<Seq<u8>, Error>(
                Error::Protocol(ProtocolViolation::InvalidResponseTag),
            )
            &&& header[0] == DATA_TAG && addr_of(header[1], header[2]) != address ==> result
                == Err::<Seq<u8>, Error>(Error::Protocol(ProtocolViolation::AddressMismatch))
            &&& header[0] == DATA_TAG && addr_of(header[1], header[2]) == address && header[3]
                != size ==> result == Err::<Seq<u8>, Error>(
                Error::Protocol(ProtocolViolation::SizeMismatch),
            )
            &&& header != data_header(address, size) ==> result matches Err(Error::Protocol(_))
        }),
{
    let header = replies.subrange(header_at(first), header_at(first) + HEADER_SIZE);
    crate::wire::lemma_header_accepted_iff_echo(header, address, size);
}

/// A read returns the payload that a radio holds at the address, when the
/// radio answers as [`read_replies`] says, whatever it sends after.
pub proof fn lemma_read_returns_payload(
    address: u16,
    first: bool,
    payload: Seq<u8>,
    after: Seq<u8>,
)
    requires
        payload.len() <= MAX_READ,
    ensures
        read_block(
            address,
            payload.len() as u8,
            first,
            read_replies(address, first, payload) + after,
        ) == Ok::<Seq<u8>, Error>(payload),
        read_block_reads(payload.len() as u8, first) == read_replies(
            address,
            first,
            payload,
        ).len(),
{
    let size = payload.len() as u8;
    let replies = read_replies(address, first, payload) + after;
    let at = header_at(first);
    assert(replies.subrange(at, at + HEADER_SIZE) =~= data_header(address, size));
    crate::wire::lemma_header_accepted_iff_echo(data_header(address, size), address, size);
    assert(replies.subrange(at + HEADER_SIZE, read_block_reads(size, first)) =~= payload);
}

/// The machine that writes a block, driven against a radio that sends
/// `replies`, writes the one frame, reads one byte and finishes within
/// [`SEND_STEPS`] steps with the outcome that [`send_block`] gives: success
/// only on an acknowledgement, rejection on any other byte, and an error only
/// if no byte arrives.
pub proof fn lemma_send_conversation(
    address: u16,
    data: Seq<u8>,
    replies: Seq<u8>,
    file: Seq<u8>,
)
    ensures
        ({
            let s = drive(
                SendBlockView::initial(),
                ActionView::Send(write_frame(address, data)),
                replies,
                file,
                SEND_STEPS as nat,
            );
            &&& s.finished
            &&& s.state.outcome() == Some(send_block(replies))
            &&& s.sent == seq![write_frame(address, data)]
            &&& s.unread == if replies.len() > 0 {
                replies.skip(1)
            } else {
                replies
            }
            &&& replies.len() > 0 ==> send_block(replies) == Ok::<bool, Error>(replies[0] == ACK)
        }),
{
    reveal_with_fuel(drive, 3);
    let s = drive(
        SendBlockView::initial(),
        ActionView::Send(write_frame(address, data)),
        replies,
        file,
        SEND_STEPS as nat,
    );
    if replies.len() > 0 {
        assert(replies.take(1)[0] == replies[0]);
    }
    assert(s.sent =~= seq![write_frame(address, data)]);
}

} // verus!
