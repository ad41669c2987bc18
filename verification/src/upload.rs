//! Uploading an image: the handshake, the validation of the image against the
//! radio's ident, and the writes that carry it to the device.

use crate::block::{lemma_send_conversation, send_block, SendBlock, SendBlockView, SEND_STEPS};
use crate::dump::{dump, dump_replies, lemma_dump_reads_memory};
use crate::handshake::{
    identify, identify_frames, identify_reads, identify_replies, lemma_handshake_conversation,
    lemma_identify_returns_ident, valid_ident, Handshake, HandshakeView, HANDSHAKE_STEPS,
};
use crate::layout::{
    dumped_image, image_verdict, lemma_upload_replays_dump, upload_address, upload_count,
    upload_payload, validate_image, write_address, write_count, write_payload, AUX_BASE,
    DEVICE_SIZE, FULL_SIZE, FULL_WRITES, IDENT_PREFIX, MAIN_SIZE, MAIN_WRITES, WRITE_SIZE,
};
use crate::machine::{
    drive, lemma_drive_nested, lemma_drive_settles, Action, ActionView, Event, EventView,
    Protocol,
};
use crate::wire::{magic, write_frame, Error, ACK};
use vstd::prelude::*;

verus! {

/// What became of one write.
#[derive(Clone, Copy, Debug, PartialEq, Eq)]
pub enum WriteStatus {
    /// The radio acknowledged the block.
    Accepted,
    /// The radio answered with something other than an acknowledgement. The
    /// device's memory at that address is left as it was, and the upload goes on.
    Rejected,
    /// The line failed during the exchange. The rest of the region is abandoned.
    Failed,
}

/// One line of an upload's log: a write that was attempted, and how it ended.
#[derive(Clone, Copy, Debug, PartialEq, Eq)]
pub struct WriteRecord {
    /// Device address that the block was sent to.
    pub address: u16,
    pub status: WriteStatus,
}

enum UploadStage {
    Identify(Handshake),
    Loading,
    Sending(SendBlock),
    Done,
    Failed(Error),
}

/// The upload machine. Obtain one with [`Upload::start`], feed it with
/// [`Upload::step`], and collect the log with [`Upload::finish`].
pub struct Upload {
    stage: UploadStage,
    ident: Vec<u8>,
    image: Vec<u8>,
    index: usize,
    log: Vec<WriteRecord>,
}

/// What an upload is busy with.
#[verifier::ext_equal]
pub enum UploadStageView {
    /// The handshake is under way.
    Identify(HandshakeView),
    /// The driver is fetching the image.
    Loading,
    /// The write number `index` is under way.
    Sending(SendBlockView),
    /// Every write has been attempted or abandoned.
    Done,
    /// The upload was given up before the first write.
    Failed(Error),
}

/// Mathematical state of an [`Upload`].
#[verifier::ext_equal]
pub struct UploadView {
    pub stage: UploadStageView,
    /// The ident that the radio gave; empty until the handshake is done.
    pub ident: Seq<u8>,
    /// The image being uploaded; empty until it has been loaded and validated.
    pub image: Seq<u8>,
    /// Number of the write under way.
    pub index: nat,
    /// The writes attempted so far, in order.
    pub log: Seq<WriteRecord>,
}

/// The number of the first write after the region that write `index` belongs to.
pub open spec fn region_end(index: int) -> int {
    if index < MAIN_WRITES {
        MAIN_WRITES as int
    } else {
        FULL_WRITES as int
    }
}

/// How a finished write is logged.
pub open spec fn status_of(result: Result<bool, Error>) -> WriteStatus {
    match result {
        Ok(true) => WriteStatus::Accepted,
        Ok(false) => WriteStatus::Rejected,
        Err(_) => WriteStatus::Failed,
    }
}

impl UploadView {
    /// State of an upload that has just asked for the magic to be written.
    pub open spec fn initial() -> UploadView {
        UploadView {
            stage: UploadStageView::Identify(HandshakeView::initial()),
            ident: Seq::empty(),
            image: Seq::empty(),
            index: 0,
            log: Seq::empty(),
        }
    }

    /// This state, given up for `error`.
    pub open spec fn fail(self, error: Error) -> (UploadView, ActionView) {
        (UploadView { stage: UploadStageView::Failed(error), ..self }, ActionView::Finish)
    }

    /// This state with one more line in the log, for the write under way.
    pub open spec fn logged(self, status: WriteStatus) -> UploadView {
        UploadView {
            log: self.log.push(
                WriteRecord { address: write_address(self.index as int) as u16, status },
            ),
            ..self
        }
    }

    /// Goes on with write number `index`, or finishes if the image has no such write.
    pub open spec fn send_from(self, index: int) -> (UploadView, ActionView) {
        if index < write_count(self.image.len() as int) {
            (
                UploadView {
                    stage: UploadStageView::Sending(SendBlockView::initial()),
                    index: index as nat,
                    ..self
                },
                ActionView::Send(
                    write_frame(write_address(index) as u16, write_payload(self.image, index)),
                ),
            )
        } else {
            (
                UploadView { stage: UploadStageView::Done, index: index as nat, ..self },
                ActionView::Finish,
            )
        }
    }

    /// What holds of every state that an upload can reach: a handshake under
    /// way is well-formed, and while a write is under way the image is long
    /// enough to be uploaded and holds that write.
    pub open spec fn wf(self) -> bool {
        match self.stage {
            UploadStageView::Identify(handshake) => handshake.wf(),
            UploadStageView::Sending(_) => {
                &&& self.image.len() >= MAIN_SIZE
                &&& self.index < write_count(self.image.len() as int)
            },
            _ => true,
        }
    }

    /// The result of the upload, once it has one: the log of the writes, or
    /// the reason why none was attempted.
    pub open spec fn outcome(self) -> Option<Result<Seq<WriteRecord>, Error>> {
        match self.stage {
            UploadStageView::Done => Some(Ok(self.log)),
            UploadStageView::Failed(error) => Some(Err(error)),
            _ => None,
        }
    }
}

impl Protocol for UploadView {
    /// One step of an upload.
    ///
    /// The handshake runs first and its failure is the upload's. Then the
    /// image is asked for and validated; an image that fails validation ends
    /// the upload before anything is written. Then the writes go out in order.
    /// A rejected write is logged and the next one follows. A write during
    /// which the line fails is logged, and the upload skips to the end of the
    /// region that the write belongs to.
    open spec fn advance(self, event: EventView) -> (UploadView, ActionView) {
        match self.stage {
            UploadStageView::Identify(handshake) => {
                let (handshake1, action) = handshake.advance(event);
                if action is Finish {
                    match handshake1.outcome() {
                        Some(Ok(ident)) => (
                            UploadView { stage: UploadStageView::Loading, ident, ..self },
                            ActionView::Load,
                        ),
                        Some(Err(error)) => self.fail(error),
                        None => self.fail(Error::Transport),
                    }
                } else {
                    (UploadView { stage: UploadStageView::Identify(handshake1), ..self }, action)
                }
            },
            UploadStageView::Loading => match event {
                EventView::Loaded(image) => match image_verdict(image, self.ident) {
                    Ok(_) => UploadView { image, ..self }.send_from(0),
                    Err(flaw) => self.fail(Error::Image(flaw)),
                },
                _ => self.fail(Error::Transport),
            },
            UploadStageView::Sending(block) => {
                let (block1, action) = block.advance(event);
                if action is Finish {
                    match block1.outcome() {
                        Some(Ok(accepted)) => self.logged(status_of(Ok(accepted))).send_from(
                            self.index as int + 1,
                        ),
                        Some(Err(error)) => self.logged(status_of(Err(error))).send_from(
                            region_end(self.index as int),
                        ),
                        None => self.fail(Error::Transport),
                    }
                } else {
                    (UploadView { stage: UploadStageView::Sending(block1), ..self }, action)
                }
            },
            UploadStageView::Done | UploadStageView::Failed(_) => (self, ActionView::Finish),
        }
    }
}

impl View for Upload {
    type V = UploadView;

    closed spec fn view(&self) -> UploadView {
        UploadView {
            stage: match self.stage {
                UploadStage::Identify(handshake) => UploadStageView::Identify(handshake@),
                UploadStage::Loading => UploadStageView::Loading,
                UploadStage::Sending(block) => UploadStageView::Sending(block@),
                UploadStage::Done => UploadStageView::Done,
                UploadStage::Failed(error) => UploadStageView::Failed(error),
            },
            ident: self.ident@,
            image: self.image@,
            index: self.index as nat,
            log: self.log@,
        }
    }
}

impl Upload {
    #[verifier::type_invariant]
    spec fn inv(self) -> bool {
        self@.wf()
    }

    /// Begins an upload: the machine, and the magic sequence for the driver to write.
    pub fn start() -> (r: (Upload, Action))
        ensures
            r.0@ == UploadView::initial(),
            r.1@ == ActionView::Send(magic()),
    {
        let (handshake, action) = Handshake::start();
        (
            Upload {
                stage: UploadStage::Identify(handshake),
                ident: Vec::new(),
                image: Vec::new(),
                index: 0,
                log: Vec::new(),
            },
            action,
        )
    }

    fn send_from(ident: Vec<u8>, image: Vec<u8>, log: Vec<WriteRecord>, index: usize) -> (r: (
        Upload,
        Action,
    ))
        requires
            image@.len() >= MAIN_SIZE,
            index <= FULL_WRITES,
        ensures
            r.0@ == (UploadView {
                stage: UploadStageView::Loading,
                ident: ident@,
                image: image@,
                index: 0,
                log: log@,
            }).send_from(index as int).0,
            r.1@ == (UploadView {
                stage: UploadStageView::Loading,
                ident: ident@,
                image: image@,
                index: 0,
                log: log@,
            }).send_from(index as int).1,
    {
        if index < upload_count(image.len()) {
            let (block, action) = SendBlock::start(
                upload_address(index),
                upload_payload(image.as_slice(), index),
            );
            (Upload { stage: UploadStage::Sending(block), ident, image, index, log }, action)
        } else {
            (Upload { stage: UploadStage::Done, ident, image, index, log }, Action::Finish)
        }
    }

    /// Takes the driver's report on the pending action and answers with the next one.
    pub fn step(self, event: Event) -> (r: (Upload, Action))
        ensures
            r.0@ == self@.advance(event@).0,
            r.1@ == self@.advance(event@).1,
            r.0@.wf(),
    {
        proof {
            use_type_invariant(&self);
        }
        let Upload { stage, ident, image, index, mut log } = self;
        match stage {
            UploadStage::Identify(handshake) => {
                let (handshake1, action) = handshake.step(event);
                match action {
                    Action::Finish => match handshake1.finish() {
                        Some(Ok(found)) => (
                            Upload { stage: UploadStage::Loading, ident: found, image, index, log },
                            Action::Load,
                        ),
                        Some(Err(error)) => (
                            Upload { stage: UploadStage::Failed(error), ident, image, index, log },
                            Action::Finish,
                        ),
                        None => (
                            Upload {
                                stage: UploadStage::Failed(Error::Transport),
                                ident,
                                image,
                                index,
                                log,
                            },
                            Action::Finish,
                        ),
                    },
                    other => (
                        Upload { stage: UploadStage::Identify(handshake1), ident, image, index, log },
                        other,
                    ),
                }
            },
            UploadStage::Loading => match event {
                Event::Loaded(offered) => match validate_image(
                    offered.as_slice(),
                    ident.as_slice(),
                ) {
                    Ok(_) => Upload::send_from(ident, offered, log, 0),
                    Err(flaw) => (
                        Upload {
                            stage: UploadStage::Failed(Error::Image(flaw)),
                            ident,
                            image,
                            index,
                            log,
                        },
                        Action::Finish,
                    ),
                },
                _ => (
                    Upload { stage: UploadStage::Failed(Error::Transport), ident, image, index, log },
                    Action::Finish,
                ),
            },
            UploadStage::Sending(block) => {
                let (block1, action) = block.step(event);
                match action {
                    Action::Finish => match block1.finish() {
                        Some(Ok(accepted)) => {
                            let status = if accepted {
                                WriteStatus::Accepted
                            } else {
                                WriteStatus::Rejected
                            };
                            log.push(WriteRecord { address: upload_address(index), status });
                            Upload::send_from(ident, image, log, index + 1)
                        },
                        Some(Err(_)) => {
                            log.push(
                                WriteRecord {
                                    address: upload_address(index),
                                    status: WriteStatus::Failed,
                                },
                            );
                            let resume = if index < MAIN_WRITES {
                                MAIN_WRITES
                            } else {
                                FULL_WRITES
                            };
                            Upload::send_from(ident, image, log, resume)
                        },
                        None => (
                            Upload {
                                stage: UploadStage::Failed(Error::Transport),
                                ident,
                                image,
                                index,
                                log,
                            },
                            Action::Finish,
                        ),
                    },
                    other => (
                        Upload { stage: UploadStage::Sending(block1), ident, image, index, log },
                        other,
                    ),
                }
            },
            UploadStage::Done => (
                Upload { stage: UploadStage::Done, ident, image, index, log },
                Action::Finish,
            ),
            UploadStage::Failed(error) => (
                Upload { stage: UploadStage::Failed(error), ident, image, index, log },
                Action::Finish,
            ),
        }
    }

    /// The writes attempted so far, in order.
    pub fn log(&self) -> (log: &Vec<WriteRecord>)
        ensures
            log@ == self@.log,
    {
        &self.log
    }

    /// The image being uploaded; empty until it has been loaded and validated.
    pub fn image(&self) -> (image: &Vec<u8>)
        ensures
            image@ == self@.image,
    {
        &self.image
    }

    /// The ident that the radio gave; empty until the handshake is done.
    pub fn ident(&self) -> (ident: &Vec<u8>)
        ensures
            ident@ == self@.ident,
    {
        &self.ident
    }

    /// The write under way, as its device address and its payload; `None`
    /// while no write is under way.
    pub fn current_write(&self) -> (r: Option<(u16, &[u8])>)
        ensures
            match r {
                Some((address, payload)) => {
                    &&& self@.stage is Sending
                    &&& address == write_address(self@.index as int)
                    &&& payload@ == write_payload(self@.image, self@.index as int)
                },
                None => !(self@.stage is Sending),
            },
    {
        proof {
            use_type_invariant(self);
        }
        match self.stage {
            UploadStage::Sending(_) => Some(
                (upload_address(self.index), upload_payload(self.image.as_slice(), self.index)),
            ),
            _ => None,
        }
    }

    /// The log of the writes, or the reason why none was attempted; `None`
    /// while the upload is still running.
    pub fn finish(self) -> (r: Option<Result<Vec<WriteRecord>, Error>>)
        ensures
            match r {
                Some(Ok(log)) => self@.outcome() == Some(Ok::<Seq<WriteRecord>, Error>(log@)),
                Some(Err(error)) => self@.outcome() == Some(Err::<Seq<WriteRecord>, Error>(error)),
                None => self@.outcome().is_none(),
            },
    {
        match self.stage {
            UploadStage::Done => Some(Ok(self.log)),
            UploadStage::Failed(error) => Some(Err(error)),
            _ => None,
        }
    }
}

/// Every step of an upload keeps its state well-formed.
pub proof fn lemma_upload_keeps_wf(state: UploadView, event: EventView)
    requires
        state.wf(),
    ensures
        state.advance(event).0.wf(),
{
}

/// Steps within which every upload finishes.
pub const UPLOAD_STEPS: usize = 827;

/// The frame of write number `index` of an upload of `image`.
pub open spec fn frame_of(image: Seq<u8>, index: int) -> Seq<u8> {
    write_frame(write_address(index) as u16, write_payload(image, index))
}

/// The log line of write number `index` that ended with `status`.
pub open spec fn record_of(index: int, status: WriteStatus) -> WriteRecord {
    WriteRecord { address: write_address(index) as u16, status }
}

/// The writes of an upload, or of the end of one.
#[verifier::ext_equal]
pub struct Writes {
    /// How each write ended, in order.
    pub log: Seq<WriteRecord>,
    /// The frames that went on the line, in order.
    pub frames: Seq<Seq<u8>>,
}

/// The writes of `image` from number `from` on, against a radio that sends
/// `replies`. Each write takes one byte of the radio's output. After a
/// rejected write the next one follows; once the output has run out, the
/// write that found it so is the last of its region to be attempted.
pub open spec fn write_all(image: Seq<u8>, replies: Seq<u8>, from: nat) -> Writes
    decreases FULL_WRITES - from,
{
    if from >= write_count(image.len() as int) {
        Writes { log: Seq::empty(), frames: Seq::empty() }
    } else {
        let result = send_block(replies);
        let rest = match result {
            Ok(_) => write_all(image, replies.skip(1), from + 1),
            Err(_) => write_all(image, replies, region_end(from as int) as nat),
        };
        Writes {
            log: seq![record_of(from as int, status_of(result))] + rest.log,
            frames: seq![frame_of(image, from as int)] + rest.frames,
        }
    }
}

/// What the upload of `file` comes to against a radio that sends `replies`:
/// the log of the writes, or the reason why none was attempted.
pub open spec fn upload(replies: Seq<u8>, file: Seq<u8>) -> Result<Seq<WriteRecord>, Error> {
    match identify(replies) {
        Err(error) => Err(error),
        Ok(ident) => match image_verdict(file, ident) {
            Err(flaw) => Err(Error::Image(flaw)),
            Ok(_) => Ok(write_all(file, replies.skip(identify_reads(replies) as int), 0).log),
        },
    }
}

/// The frames that the upload of `file` writes to a radio that sends
/// `replies` and is identified: those of the handshake and, if the image
/// passes validation, those of the writes. An image that fails validation
/// puts nothing on the line.
pub open spec fn upload_frames(replies: Seq<u8>, file: Seq<u8>) -> Seq<Seq<u8>>
    recommends
        identify(replies) is Ok,
{
    if image_verdict(file, identify(replies)->Ok_0) is Ok {
        identify_frames() + write_all(
            file,
            replies.skip(identify_reads(replies) as int),
            0,
        ).frames
    } else {
        identify_frames()
    }
}

/// `count` acknowledgements.
pub open spec fn acks(count: nat) -> Seq<u8> {
    Seq::new(count, |i: int| ACK)
}

proof fn lemma_sending(
    ident: Seq<u8>,
    image: Seq<u8>,
    log: Seq<WriteRecord>,
    replies: Seq<u8>,
    from: nat,
    file: Seq<u8>,
)
    requires
        image.len() >= MAIN_SIZE,
        from <= FULL_WRITES,
    ensures
        ({
            let begun = (UploadView {
                stage: UploadStageView::Loading,
                ident,
                image,
                index: 0,
                log,
            }).send_from(from as int);
            let s = drive(
                begun.0,
                begun.1,
                replies,
                file,
                ((FULL_WRITES - from) * SEND_STEPS) as nat,
            );
            &&& s.finished
            &&& s.state.outcome() == Some(
                Ok::<Seq<WriteRecord>, Error>(log + write_all(image, replies, from).log),
            )
            &&& s.sent == write_all(image, replies, from).frames
        }),
    decreases FULL_WRITES - from,
{
    reveal_with_fuel(drive, 2);
    let base = UploadView { stage: UploadStageView::Loading, ident, image, index: 0, log };
    let begun = base.send_from(from as int);
    let steps = ((FULL_WRITES - from) * SEND_STEPS) as nat;
    let s = drive(begun.0, begun.1, replies, file, steps);
    if from >= write_count(image.len() as int) {
        assert(log + write_all(image, replies, from).log =~= log);
        assert(s.sent =~= write_all(image, replies, from).frames);
    } else {
        let address = write_address(from as int) as u16;
        let inner = SendBlockView::initial();
        let action = ActionView::Send(frame_of(image, from as int));
        let wrap = |block: SendBlockView|
            UploadView { stage: UploadStageView::Sending(block), ident, image, index: from, log };
        let resume = |block: SendBlockView|
            match block.outcome() {
                Some(Ok(accepted)) => wrap(block).logged(status_of(Ok(accepted))).send_from(
                    from as int + 1,
                ),
                Some(Err(error)) => wrap(block).logged(status_of(Err(error))).send_from(
                    region_end(from as int),
                ),
                None => wrap(block).fail(Error::Transport),
            };
        assert(begun.0 == wrap(inner));
        assert(begun.1 == action);
        lemma_send_conversation(address, write_payload(image, from as int), replies, file);
        let done = drive(inner, action, replies, file, SEND_STEPS as nat);
        let result = send_block(replies);
        let next: nat = match result {
            Ok(_) => from + 1,
            Err(_) => region_end(from as int) as nat,
        };
        let log1 = log.push(record_of(from as int, status_of(result)));
        let base1 = UploadView {
            stage: UploadStageView::Loading,
            ident,
            image,
            index: 0,
            log: log1,
        };
        lemma_sending(ident, image, log1, done.unread, next, file);
        let (outer, then) = resume(done.state);
        assert(outer =~= base1.send_from(next as int).0);
        assert(then == base1.send_from(next as int).1);
        lemma_drive_settles(
            outer,
            then,
            done.unread,
            file,
            ((FULL_WRITES - next) * SEND_STEPS) as nat,
            (steps - SEND_STEPS) as nat,
        );
        assert forall|i: SendBlockView, e: EventView| #[trigger]
            wrap(i).advance(e) == if i.advance(e).1 is Finish {
                resume(i.advance(e).0)
            } else {
                (wrap(i.advance(e).0), i.advance(e).1)
            } by {
            let (i1, a1) = i.advance(e);
            if a1 is Finish {
                assert(wrap(i).advance(e).0 =~= resume(i1).0);
            }
        }
        lemma_drive_nested(wrap, resume, inner, action, replies, file, SEND_STEPS as nat, steps);
        let rest = write_all(image, done.unread, next);
        assert(log1 + rest.log =~= log + write_all(image, replies, from).log);
        assert(s.sent =~= write_all(image, replies, from).frames);
    }
}

/// The upload machine, driven against a radio that sends `replies` and
/// offered `file` as the image, finishes within [`UPLOAD_STEPS`] steps with
/// the outcome that [`upload`] gives, and once the radio is identified it has
/// written the frames of [`upload_frames`].
pub proof fn lemma_upload_conversation(replies: Seq<u8>, file: Seq<u8>)
    ensures
        ({
            let s = drive(
                UploadView::initial(),
                ActionView::Send(magic()),
                replies,
                file,
                UPLOAD_STEPS as nat,
            );
            &&& s.finished
            &&& s.state.outcome() == Some(upload(replies, file))
            &&& identify(replies) is Ok ==> s.sent == upload_frames(replies, file)
        }),
{
    reveal_with_fuel(drive, 3);
    let base = UploadView::initial();
    let inner = HandshakeView::initial();
    let action = ActionView::Send(magic());
    let wrap = |handshake: HandshakeView|
        UploadView { stage: UploadStageView::Identify(handshake), ..base };
    let resume = |handshake: HandshakeView|
        match handshake.outcome() {
            Some(Ok(ident)) => (
                UploadView { stage: UploadStageView::Loading, ident, ..base },
                ActionView::Load,
            ),
            Some(Err(error)) => base.fail(error),
            None => base.fail(Error::Transport),
        };
    assert(base == wrap(inner));
    lemma_handshake_conversation(replies, file);
    let done = drive(inner, action, replies, file, HANDSHAKE_STEPS as nat);
    let (outer, then) = resume(done.state);
    let rest = drive(outer, then, done.unread, file, (UPLOAD_STEPS - HANDSHAKE_STEPS) as nat);
    match identify(replies) {
        Ok(ident) => {
            match image_verdict(file, ident) {
                Ok(_) => {
                    lemma_sending(ident, file, Seq::empty(), done.unread, 0, file);
                    let loaded = UploadView {
                        stage: UploadStageView::Loading,
                        ident,
                        image: file,
                        index: 0,
                        log: Seq::empty(),
                    };
                    assert(outer.advance(EventView::Loaded(file)).0 =~= loaded.send_from(0).0);
                    assert(outer.advance(EventView::Loaded(file)).1 == loaded.send_from(0).1);
                    let writes = write_all(file, done.unread, 0);
                    assert(Seq::<WriteRecord>::empty() + writes.log =~= writes.log);
                    assert(rest.sent =~= writes.frames);
                },
                Err(_) => {
                    assert(rest.sent =~= Seq::<Seq<u8>>::empty());
                },
            }
            assert(done.sent + rest.sent =~= upload_frames(replies, file));
        },
        Err(_) => {},
    }
    assert forall|i: HandshakeView, e: EventView| #[trigger]
        wrap(i).advance(e) == if i.advance(e).1 is Finish {
            resume(i.advance(e).0)
        } else {
            (wrap(i.advance(e).0), i.advance(e).1)
        } by {
        let (i1, a1) = i.advance(e);
        if a1 is Finish {
            assert(wrap(i).advance(e).0 =~= resume(i1).0);
        }
    }
    lemma_drive_nested(
        wrap,
        resume,
        inner,
        action,
        replies,
        file,
        HANDSHAKE_STEPS as nat,
        UPLOAD_STEPS as nat,
    );
}

proof fn lemma_all_accepted(image: Seq<u8>, replies: Seq<u8>, from: nat)
    requires
        image.len() >= MAIN_SIZE,
        from <= write_count(image.len() as int),
        replies.len() >= write_count(image.len() as int) - from,
        forall|i: int| 0 <= i < write_count(image.len() as int) - from ==> replies[i] == ACK,
    ensures
        write_all(image, replies, from).frames == Seq::new(
            (write_count(image.len() as int) - from) as nat,
            |i: int| frame_of(image, from + i),
        ),
        write_all(image, replies, from).log == Seq::new(
            (write_count(image.len() as int) - from) as nat,
            |i: int| record_of(from + i, WriteStatus::Accepted),
        ),
    decreases FULL_WRITES - from,
{
    let count = write_count(image.len() as int);
    if from < count {
        let tail = replies.skip(1);
        assert forall|i: int| 0 <= i < count - (from + 1) implies tail[i] == ACK by {
            assert(tail[i] == replies[i + 1]);
        }
        lemma_all_accepted(image, tail, from + 1);
        assert(write_all(image, replies, from).frames =~= Seq::new(
            (count - from) as nat,
            |i: int| frame_of(image, from + i),
        ));
        assert(write_all(image, replies, from).log =~= Seq::new(
            (count - from) as nat,
            |i: int| record_of(from + i, WriteStatus::Accepted),
        ));
    } else {
        assert(write_all(image, replies, from).frames =~= Seq::new(
            (count - from) as nat,
            |i: int| frame_of(image, from + i),
        ));
        assert(write_all(image, replies, from).log =~= Seq::new(
            (count - from) as nat,
            |i: int| record_of(from + i, WriteStatus::Accepted),
        ));
    }
}

/// An upload to a radio that identifies itself by the ident in front of the
/// image and accepts every block writes every block of the image once, in
/// order of file offset: `MAIN_WRITES` frames, all below the auxiliary
/// region, for an image shorter than `FULL_SIZE`, and `FULL_WRITES` frames,
/// the last `FULL_WRITES - MAIN_WRITES` of them into the auxiliary region,
/// for one that is not.
pub proof fn lemma_upload_writes_every_block(ident: Seq<u8>, file: Seq<u8>, after: Seq<u8>)
    requires
        valid_ident(ident),
        image_verdict(file, ident) is Ok,
    ensures
        ({
            let count = write_count(file.len() as int) as nat;
            let replies = identify_replies(ident) + acks(count) + after;
            &&& count == if file.len() < FULL_SIZE {
                MAIN_WRITES
            } else {
                FULL_WRITES
            }
            &&& upload(replies, file) == Ok::<Seq<WriteRecord>, Error>(
                Seq::new(count, |i: int| record_of(i, WriteStatus::Accepted)),
            )
            &&& upload_frames(replies, file) == identify_frames() + Seq::new(
                count,
                |i: int| frame_of(file, i),
            )
            &&& forall|i: int|
                0 <= i < count ==> (#[trigger] write_address(i) >= AUX_BASE <==> i >= MAIN_WRITES)
        }),
{
    let count = write_count(file.len() as int) as nat;
    let tail = acks(count) + after;
    let replies = identify_replies(ident) + acks(count) + after;
    assert(replies =~= identify_replies(ident) + tail);
    lemma_identify_returns_ident(ident, tail);
    assert(replies.skip(identify_reads(replies) as int) =~= tail);
    lemma_all_accepted(file, tail, 0);
    assert(Seq::new((count - 0) as nat, |i: int| frame_of(file, 0 + i)) =~= Seq::new(
        count,
        |i: int| frame_of(file, i),
    ));
    assert(Seq::new((count - 0) as nat, |i: int| record_of(0 + i, WriteStatus::Accepted))
        =~= Seq::new(count, |i: int| record_of(i, WriteStatus::Accepted)));
}

/// Round trip. The image that a dump of a radio yields, uploaded to the same
/// radio, passes validation and is written back block by block to the
/// addresses it was read from: every frame carries what the radio's memory
/// holds at the frame's address, and the frames come in ascending order of
/// address through the main region and then through the auxiliary region, as
/// the reads of the dump did.
pub proof fn lemma_upload_of_dump_rewrites_memory(ident: Seq<u8>, memory: Seq<u8>)
    requires
        valid_ident(ident),
        ident.len() == IDENT_PREFIX,
        memory.len() >= DEVICE_SIZE,
    ensures
        ({
            let image = dumped_image(ident, memory);
            let replies = identify_replies(ident) + acks(FULL_WRITES as nat);
            &&& dump(dump_replies(ident, memory)) == Ok::<Seq<u8>, Error>(image)
            &&& upload(replies, image) == Ok::<Seq<WriteRecord>, Error>(
                Seq::new(FULL_WRITES as nat, |i: int| record_of(i, WriteStatus::Accepted)),
            )
            &&& upload_frames(replies, image) == identify_frames() + Seq::new(
                FULL_WRITES as nat,
                |i: int|
                    write_frame(
                        write_address(i) as u16,
                        memory.subrange(write_address(i), write_address(i) + WRITE_SIZE),
                    ),
            )
            &&& drive(
                UploadView::initial(),
                ActionView::Send(magic()),
                replies,
                image,
                UPLOAD_STEPS as nat,
            ).sent == upload_frames(replies, image)
        }),
{
    let image = dumped_image(ident, memory);
    let replies = identify_replies(ident) + acks(FULL_WRITES as nat);
    lemma_upload_conversation(replies, image);
    lemma_identify_returns_ident(ident, acks(FULL_WRITES as nat));
    lemma_dump_reads_memory(ident, memory, Seq::empty());
    assert(dump_replies(ident, memory) + Seq::<u8>::empty() =~= dump_replies(ident, memory));
    lemma_upload_replays_dump(ident, memory);
    lemma_upload_writes_every_block(ident, image, Seq::empty());
    assert(replies + Seq::<u8>::empty() =~= replies);
    assert(Seq::new(FULL_WRITES as nat, |i: int| frame_of(image, i)) =~= Seq::new(
        FULL_WRITES as nat,
        |i: int|
            write_frame(
                write_address(i) as u16,
                memory.subrange(write_address(i), write_address(i) + WRITE_SIZE),
            ),
    ));
}

} // verus!
