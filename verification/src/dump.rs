//! Dumping the radio's memory: the handshake, then one read after another
//! until the image is complete.

use crate::block::{
    lemma_read_conversation, lemma_read_returns_payload, read_block, read_block_reads,
    read_replies, ReadBlock, ReadBlockView, READ_STEPS,
};
use crate::handshake::{
    identify, identify_reads, identify_replies, lemma_handshake_conversation,
    lemma_identify_returns_ident, valid_ident, Handshake, HandshakeView, HANDSHAKE_STEPS,
};
use crate::layout::{
    dump_address, dumped_blocks, dumped_image, read_address, DEVICE_SIZE, READS, READ_SIZE,
};
use crate::machine::{
    drive, lemma_drive_nested, Action, ActionView, Event, EventView, Protocol,
};
use crate::wire::{magic, read_request, Error};
use vstd::prelude::*;

verus! {

enum DumpStage {
    Identify(Handshake),
    Reading(ReadBlock),
    Done,
    Failed(Error),
}

/// The dump machine. Obtain one with [`Dump::start`], feed it with
/// [`Dump::step`], and collect the image with [`Dump::finish`].
pub struct Dump {
    stage: DumpStage,
    index: usize,
    image: Vec<u8>,
}

/// What a dump is busy with.
#[verifier::ext_equal]
pub enum DumpStageView {
    /// The handshake is under way.
    Identify(HandshakeView),
    /// The read number `index` is under way.
    Reading(ReadBlockView),
    /// Every block has been read.
    Done,
    /// The dump was given up; nothing of the image is to be kept.
    Failed(Error),
}

/// Mathematical state of a [`Dump`].
#[verifier::ext_equal]
pub struct DumpView {
    pub stage: DumpStageView,
    /// Number of the read under way, which is also the number of blocks in the image.
    pub index: nat,
    /// The ident followed by the payloads read so far.
    pub image: Seq<u8>,
}

impl DumpView {
    /// State of a dump that has just asked for the magic to be written.
    pub open spec fn initial() -> DumpView {
        DumpView {
            stage: DumpStageView::Identify(HandshakeView::initial()),
            index: 0,
            image: Seq::empty(),
        }
    }

    /// This state, given up for `error`.
    pub open spec fn fail(self, error: Error) -> (DumpView, ActionView) {
        (DumpView { stage: DumpStageView::Failed(error), ..self }, ActionView::Finish)
    }

    /// Goes on with read number `index`, or finishes if the layout has no such
    /// read. Only read number 0 is the first exchange of its session.
    pub open spec fn read_from(self, index: int) -> (DumpView, ActionView) {
        if index < READS {
            (
                DumpView {
                    stage: DumpStageView::Reading(
                        ReadBlockView::initial(read_address(index) as u16, READ_SIZE, index == 0),
                    ),
                    index: index as nat,
                    ..self
                },
                ActionView::Send(read_request(read_address(index) as u16, READ_SIZE)),
            )
        } else {
            (DumpView { stage: DumpStageView::Done, index: index as nat, ..self }, ActionView::Finish)
        }
    }

    /// What holds of every state that a dump can reach: the exchange under
    /// way is well-formed, and a read under way is one of the layout's.
    pub open spec fn wf(self) -> bool {
        match self.stage {
            DumpStageView::Identify(handshake) => handshake.wf(),
            DumpStageView::Reading(block) => block.wf() && self.index < READS,
            _ => true,
        }
    }

    /// The result of the dump, once it has one.
    pub open spec fn outcome(self) -> Option<Result<Seq<u8>, Error>> {
        match self.stage {
            DumpStageView::Done => Some(Ok(self.image)),
            DumpStageView::Failed(error) => Some(Err(error)),
            _ => None,
        }
    }
}

impl Protocol for DumpView {
    /// One step of a dump.
    ///
    /// The handshake runs first, and the ident it yields opens the image.
    /// Then the reads go out in the order of the layout, and each payload is
    /// appended to the image. The first failure, of the handshake or of a
    /// read, ends the dump.
    open spec fn advance(self, event: EventView) -> (DumpView, ActionView) {
        match self.stage {
            DumpStageView::Identify(handshake) => {
                let (handshake1, action) = handshake.advance(event);
                if action is Finish {
                    match handshake1.outcome() {
                        Some(Ok(ident)) => DumpView { image: ident, ..self }.read_from(0),
                        Some(Err(error)) => self.fail(error),
                        None => self.fail(Error::Transport),
                    }
                } else {
                    (DumpView { stage: DumpStageView::Identify(handshake1), ..self }, action)
                }
            },
            DumpStageView::Reading(block) => {
                let (block1, action) = block.advance(event);
                if action is Finish {
                    match block1.outcome() {
                        Some(Ok(payload)) => DumpView {
                            image: self.image + payload,
                            ..self
                        }.read_from(self.index as int + 1),
                        Some(Err(error)) => self.fail(error),
                        None => self.fail(Error::Transport),
                    }
                } else {
                    (DumpView { stage: DumpStageView::Reading(block1), ..self }, action)
                }
            },
            DumpStageView::Done | DumpStageView::Failed(_) => (self, ActionView::Finish),
        }
    }
}

impl View for Dump {
    type V = DumpView;

    closed spec fn view(&self) -> DumpView {
        DumpView {
            stage: match self.stage {
                DumpStage::Identify(handshake) => DumpStageView::Identify(handshake@),
                DumpStage::Reading(block) => DumpStageView::Reading(block@),
                DumpStage::Done => DumpStageView::Done,
                DumpStage::Failed(error) => DumpStageView::Failed(error),
            },
            index: self.index as nat,
            image: self.image@,
        }
    }
}

impl Dump {
    #[verifier::type_invariant]
    spec fn inv(self) -> bool {
        self@.wf()
    }

    /// Begins a dump: the machine, and the magic sequence for the driver to write.
    pub fn start() -> (r: (Dump, Action))
        ensures
            r.0@ == DumpView::initial(),
            r.1@ == ActionView::Send(magic()),
    {
        let (handshake, action) = Handshake::start();
        (Dump { stage: DumpStage::Identify(handshake), index: 0, image: Vec::new() }, action)
    }

    fn read_from(image: Vec<u8>, index: usize) -> (r: (Dump, Action))
        requires
            index <= READS,
        ensures
            r.0@ == (DumpView { stage: DumpStageView::Done, index: 0, image: image@ }).read_from(
                index as int,
            ).0,
            r.1@ == (DumpView { stage: DumpStageView::Done, index: 0, image: image@ }).read_from(
                index as int,
            ).1,
    {
        if index < READS {
            let (block, action) = ReadBlock::start(dump_address(index), READ_SIZE, index == 0);
            (Dump { stage: DumpStage::Reading(block), index, image }, action)
        } else {
            (Dump { stage: DumpStage::Done, index, image }, Action::Finish)
        }
    }

    /// Takes the driver's report on the pending action and answers with the next one.
    pub fn step(self, event: Event) -> (r: (Dump, Action))
        ensures
            r.0@ == self@.advance(event@).0,
            r.1@ == self@.advance(event@).1,
            r.0@.wf(),
    {
        proof {
            use_type_invariant(&self);
        }
        let Dump { stage, index, mut image } = self;
        match stage {
            DumpStage::Identify(handshake) => {
                let (handshake1, action) = handshake.step(event);
                match action {
                    Action::Finish => match handshake1.finish() {
                        Some(Ok(ident)) => Dump::read_from(ident, 0),
                        Some(Err(error)) => (
                            Dump { stage: DumpStage::Failed(error), index, image },
                            Action::Finish,
                        ),
                        None => (
                            Dump { stage: DumpStage::Failed(Error::Transport), index, image },
                            Action::Finish,
                        ),
                    },
                    other => (Dump { stage: DumpStage::Identify(handshake1), index, image }, other),
                }
            },
            DumpStage::Reading(block) => {
                let (block1, action) = block.step(event);
                match action {
                    Action::Finish => match block1.finish() {
                        Some(Ok(payload)) => {
                            let mut payload = payload;
                            image.append(&mut payload);
                            Dump::read_from(image, index + 1)
                        },
                        Some(Err(error)) => (
                            Dump { stage: DumpStage::Failed(error), index, image },
                            Action::Finish,
                        ),
                        None => (
                            Dump { stage: DumpStage::Failed(Error::Transport), index, image },
                            Action::Finish,
                        ),
                    },
                    other => (Dump { stage: DumpStage::Reading(block1), index, image }, other),
                }
            },
            DumpStage::Done => (Dump { stage: DumpStage::Done, index, image }, Action::Finish),
            DumpStage::Failed(error) => (
                Dump { stage: DumpStage::Failed(error), index, image },
                Action::Finish,
            ),
        }
    }

    /// How many blocks have been read so far.
    pub fn blocks_read(&self) -> (count: usize)
        ensures
            count == self@.index,
    {
        self.index
    }

    /// The ident followed by the payloads read so far.
    pub fn image(&self) -> (image: &Vec<u8>)
        ensures
            image@ == self@.image,
    {
        &self.image
    }

    /// The complete image, or the reason for failure; `None` while the dump is
    /// still running.
    pub fn finish(self) -> (r: Option<Result<Vec<u8>, Error>>)
        ensures
            match r {
                Some(Ok(image)) => self@.outcome() == Some(Ok::<Seq<u8>, Error>(image@)),
                Some(Err(error)) => self@.outcome() == Some(Err::<Seq<u8>, Error>(error)),
                None => self@.outcome().is_none(),
            },
    {
        match self.stage {
            DumpStage::Done => Some(Ok(self.image)),
            DumpStage::Failed(error) => Some(Err(error)),
            _ => None,
        }
    }
}

/// Every step of a dump keeps its state well-formed.
pub proof fn lemma_dump_keeps_wf(state: DumpView, event: EventView)
    requires
        state.wf(),
    ensures
        state.advance(event).0.wf(),
{
}

/// Steps within which every dump finishes.
pub const DUMP_STEPS: usize = 523;

/// Device address of the read number `index`, as it goes on the wire.
pub open spec fn wire_address(index: int) -> u16 {
    read_address(index) as u16
}

/// What the reads from number `from` on come to against a radio that sends
/// `replies`, when `image` holds the ident and the payloads before them: the
/// image with every further payload appended, or the first failure.
pub open spec fn read_all(replies: Seq<u8>, from: nat, image: Seq<u8>) -> Result<Seq<u8>, Error>
    decreases READS - from,
{
    if from >= READS {
        Ok(image)
    } else {
        match read_block(wire_address(from as int), READ_SIZE, from == 0, replies) {
            Err(error) => Err(error),
            Ok(payload) => read_all(
                replies.skip(read_block_reads(READ_SIZE, from == 0)),
                from + 1,
                image + payload,
            ),
        }
    }
}

/// What a dump comes to against a radio that sends `replies`: the ident
/// followed by the payloads of all reads, or the first failure.
pub open spec fn dump(replies: Seq<u8>) -> Result<Seq<u8>, Error> {
    match identify(replies) {
        Err(error) => Err(error),
        Ok(ident) => read_all(replies.skip(identify_reads(replies) as int), 0, ident),
    }
}

/// What a radio that holds `memory` sends in answer to the reads from number
/// `from` on.
pub open spec fn memory_replies(memory: Seq<u8>, from: nat) -> Seq<u8>
    decreases READS - from,
{
    if from >= READS {
        Seq::empty()
    } else {
        read_replies(
            wire_address(from as int),
            from == 0,
            memory.subrange(read_address(from as int), read_address(from as int) + READ_SIZE),
        ) + memory_replies(memory, from + 1)
    }
}

/// Everything that a radio with this ident and memory sends during a dump.
pub open spec fn dump_replies(ident: Seq<u8>, memory: Seq<u8>) -> Seq<u8> {
    identify_replies(ident) + memory_replies(memory, 0)
}

proof fn lemma_reading(replies: Seq<u8>, from: nat, image: Seq<u8>, file: Seq<u8>)
    requires
        from <= READS,
    ensures
        ({
            let begun = (DumpView { stage: DumpStageView::Done, index: 0, image }).read_from(
                from as int,
            );
            let s = drive(begun.0, begun.1, replies, file, ((READS - from) * READ_STEPS) as nat);
            &&& s.finished
            &&& s.state.outcome() == Some(read_all(replies, from, image))
        }),
    decreases READS - from,
{
    reveal_with_fuel(drive, 2);
    let base = DumpView { stage: DumpStageView::Done, index: 0, image };
    let begun = base.read_from(from as int);
    let steps = ((READS - from) * READ_STEPS) as nat;
    if from < READS {
        let address = wire_address(from as int);
        let first = from == 0;
        let inner = ReadBlockView::initial(address, READ_SIZE, first);
        let action = ActionView::Send(read_request(address, READ_SIZE));
        let wrap = |block: ReadBlockView|
            DumpView { stage: DumpStageView::Reading(block), index: from, image };
        let resume = |block: ReadBlockView|
            match block.outcome() {
                Some(Ok(payload)) => (DumpView {
                    stage: DumpStageView::Done,
                    index: 0,
                    image: image + payload,
                }).read_from(from as int + 1),
                Some(Err(error)) => wrap(block).fail(error),
                None => wrap(block).fail(Error::Transport),
            };
        assert(begun.0 == wrap(inner));
        assert(begun.1 == action);
        lemma_read_conversation(address, READ_SIZE, first, replies, file);
        let done = drive(inner, action, replies, file, READ_STEPS as nat);
        match read_block(address, READ_SIZE, first, replies) {
            Ok(payload) => {
                lemma_reading(done.unread, from + 1, image + payload, file);
            },
            Err(_) => {},
        }
        assert forall|i: ReadBlockView, e: EventView| #[trigger]
            wrap(i).advance(e) == if i.advance(e).1 is Finish {
                resume(i.advance(e).0)
            } else {
                (wrap(i.advance(e).0), i.advance(e).1)
            } by {
            let (i1, a1) = i.advance(e);
            if a1 is Finish {
                match i1.outcome() {
                    Some(Ok(payload)) => {
                        assert(wrap(i).advance(e).0 =~= resume(i1).0);
                    },
                    _ => {},
                }
            }
        }
        lemma_drive_nested(wrap, resume, inner, action, replies, file, READ_STEPS as nat, steps);
    }
}

/// The dump machine, driven against a radio that sends `replies`, finishes
/// within [`DUMP_STEPS`] steps with the outcome that [`dump`] gives.
pub proof fn lemma_dump_conversation(replies: Seq<u8>, file: Seq<u8>)
    ensures
        ({
            let s = drive(
                DumpView::initial(),
                ActionView::Send(magic()),
                replies,
                file,
                DUMP_STEPS as nat,
            );
            &&& s.finished
            &&& s.state.outcome() == Some(dump(replies))
        }),
{
    reveal_with_fuel(drive, 2);
    let base = DumpView::initial();
    let inner = HandshakeView::initial();
    let action = ActionView::Send(magic());
    let wrap = |handshake: HandshakeView|
        DumpView { stage: DumpStageView::Identify(handshake), index: 0, image: Seq::empty() };
    let resume = |handshake: HandshakeView|
        match handshake.outcome() {
            Some(Ok(ident)) => (DumpView {
                stage: DumpStageView::Done,
                index: 0,
                image: ident,
            }).read_from(0),
            Some(Err(error)) => base.fail(error),
            None => base.fail(Error::Transport),
        };
    assert(base == wrap(inner));
    lemma_handshake_conversation(replies, file);
    let done = drive(inner, action, replies, file, HANDSHAKE_STEPS as nat);
    match identify(replies) {
        Ok(ident) => {
            lemma_reading(done.unread, 0, ident, file);
        },
        Err(_) => {},
    }
    assert forall|i: HandshakeView, e: EventView| #[trigger]
        wrap(i).advance(e) == if i.advance(e).1 is Finish {
            resume(i.advance(e).0)
        } else {
            (wrap(i.advance(e).0), i.advance(e).1)
        } by {
        let (i1, a1) = i.advance(e);
        if a1 is Finish {
            match i1.outcome() {
                Some(Ok(ident)) => {
                    assert(wrap(i).advance(e).0 =~= resume(i1).0);
                },
                _ => {},
            }
        }
    }
    lemma_drive_nested(
        wrap,
        resume,
        inner,
        action,
        replies,
        file,
        HANDSHAKE_STEPS as nat,
        DUMP_STEPS as nat,
    );
}

proof fn lemma_reads_memory(ident: Seq<u8>, memory: Seq<u8>, from: nat, after: Seq<u8>)
    requires
        memory.len() >= DEVICE_SIZE,
        from <= READS,
    ensures
        read_all(memory_replies(memory, from) + after, from, ident + dumped_blocks(memory, from))
            == Ok::<Seq<u8>, Error>(dumped_image(ident, memory)),
    decreases READS - from,
{
    if from < READS {
        let address = wire_address(from as int);
        let payload = memory.subrange(
            read_address(from as int),
            read_address(from as int) + READ_SIZE,
        );
        let replies = memory_replies(memory, from) + after;
        let tail = memory_replies(memory, from + 1) + after;
        assert(replies =~= read_replies(address, from == 0, payload) + tail);
        lemma_read_returns_payload(address, from == 0, payload, tail);
        assert(replies.skip(read_block_reads(READ_SIZE, from == 0)) =~= tail);
        assert(ident + dumped_blocks(memory, from) + payload =~= ident + dumped_blocks(
            memory,
            from + 1,
        ));
        lemma_reads_memory(ident, memory, from + 1, after);
    }
}

/// A dump of a radio that answers every request with what its memory holds
/// yields the ident followed by the main region and the auxiliary region: so
/// [`dump`] has it, and so the machine ends.
pub proof fn lemma_dump_reads_memory(ident: Seq<u8>, memory: Seq<u8>, after: Seq<u8>)
    requires
        valid_ident(ident),
        memory.len() >= DEVICE_SIZE,
    ensures
        dump(dump_replies(ident, memory) + after) == Ok::<Seq<u8>, Error>(
            dumped_image(ident, memory),
        ),
        forall|file: Seq<u8>|
            (#[trigger] drive(
                DumpView::initial(),
                ActionView::Send(magic()),
                dump_replies(ident, memory) + after,
                file,
                DUMP_STEPS as nat,
            )).state.outcome() == Some(Ok::<Seq<u8>, Error>(dumped_image(ident, memory))),
{
    assert forall|file: Seq<u8>|
        (#[trigger] drive(
            DumpView::initial(),
            ActionView::Send(magic()),
            dump_replies(ident, memory) + after,
            file,
            DUMP_STEPS as nat,
        )).state.outcome() == Some(dump(dump_replies(ident, memory) + after)) by {
        lemma_dump_conversation(dump_replies(ident, memory) + after, file);
    }
    let replies = dump_replies(ident, memory) + after;
    let tail = memory_replies(memory, 0) + after;
    assert(replies =~= identify_replies(ident) + tail);
    lemma_identify_returns_ident(ident, tail);
    assert(replies.skip(identify_reads(replies) as int) =~= tail);
    assert(ident + dumped_blocks(memory, 0) =~= ident);
    lemma_reads_memory(ident, memory, 0, after);
}

} // verus!
