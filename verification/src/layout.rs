//! The radio's memory layout, and how an image file maps onto it.
//!
//! An image is the ident, then the main region, then (optionally) the
//! auxiliary region. The main region sits at device address 0, the auxiliary
//! region at [`AUX_BASE`]; in the file the two are contiguous, so file offsets
//! and device addresses part ways after the main region.

use crate::wire::ImageValidationError;
use vstd::prelude::*;
use vstd::slice::slice_subrange;

verus! {

/// Bytes of ident in front of an image.
pub const IDENT_PREFIX: usize = 8;

/// Bytes moved by one read while dumping.
pub const READ_SIZE: u8 = 0x40;

/// Bytes moved by one write while uploading.
pub const WRITE_SIZE: usize = 0x10;

/// Size of the main region, and the least length of an image that can be uploaded.
pub const MAIN_SIZE: usize = 0x1800;

/// File offset at which the main region ends and the auxiliary region starts.
pub const MAIN_END: usize = 0x1808;

/// Device address of the auxiliary region.
pub const AUX_BASE: u16 = 0x1EC0;

/// Least length of an image that carries the auxiliary region.
pub const FULL_SIZE: usize = 0x1948;

/// Size of the device's address space as far as cloning reaches into it.
pub const DEVICE_SIZE: usize = 0x2000;

/// Reads that cover the main region.
pub const MAIN_READS: usize = 0x60;

/// Reads of a complete dump.
pub const READS: usize = 0x65;

/// Writes that cover the main region.
pub const MAIN_WRITES: usize = 0x180;

/// Writes of an upload that includes the auxiliary region.
pub const FULL_WRITES: usize = 0x194;

/// Device address of the `k`-th read of a dump.
pub open spec fn read_address(k: int) -> int {
    if k < MAIN_READS {
        k * READ_SIZE
    } else {
        AUX_BASE + (k - MAIN_READS) * READ_SIZE
    }
}

/// Device address of the `i`-th write of an upload.
pub open spec fn write_address(i: int) -> int {
    if i < MAIN_WRITES {
        i * WRITE_SIZE
    } else {
        AUX_BASE + (i - MAIN_WRITES) * WRITE_SIZE
    }
}

/// Device address that the byte at file offset `offset` is written to.
pub open spec fn device_address(offset: int) -> int
    recommends
        IDENT_PREFIX <= offset < FULL_SIZE,
{
    if offset < MAIN_END {
        offset - IDENT_PREFIX
    } else {
        offset - MAIN_END + AUX_BASE
    }
}

/// How many writes an upload of an image of `len` bytes consists of.
pub open spec fn write_count(len: int) -> int
    recommends
        len >= MAIN_SIZE,
{
    if len >= FULL_SIZE {
        FULL_WRITES as int
    } else {
        MAIN_WRITES as int
    }
}

/// File offset of the first byte of the `i`-th write.
pub open spec fn write_start(i: int) -> int {
    IDENT_PREFIX + i * WRITE_SIZE
}

/// File offset just past the last byte of the `i`-th write. Only the last
/// write of the main region can be short, when the image ends inside it.
pub open spec fn write_end(len: int, i: int) -> int {
    if write_start(i) + WRITE_SIZE <= len {
        write_start(i) + WRITE_SIZE
    } else {
        len
    }
}

/// Payload of the `i`-th write of an upload of `image`.
pub open spec fn write_payload(image: Seq<u8>, i: int) -> Seq<u8>
    recommends
        image.len() >= MAIN_SIZE,
        0 <= i < write_count(image.len() as int),
{
    image.subrange(write_start(i), write_end(image.len() as int, i))
}

/// Whether `image` may be uploaded to the radio that identified itself as `ident`.
/// The ident is compared first; an image too short to hold one does not match.
pub open spec fn image_verdict(image: Seq<u8>, ident: Seq<u8>) -> Result<
    (),
    ImageValidationError,
> {
    if image.len() < IDENT_PREFIX || image.subrange(0, IDENT_PREFIX as int) != ident {
        Err(ImageValidationError::IdentMismatch)
    } else if image.len() < MAIN_SIZE {
        Err(ImageValidationError::ImageTooSmall)
    } else {
        Ok(())
    }
}

/// The `n` first payloads of a dump of `memory`, one after the other.
pub open spec fn dumped_blocks(memory: Seq<u8>, n: nat) -> Seq<u8>
    decreases n,
{
    if n == 0 {
        Seq::empty()
    } else {
        dumped_blocks(memory, (n - 1) as nat) + memory.subrange(
            read_address(n - 1),
            read_address(n - 1) + READ_SIZE,
        )
    }
}

/// The image that a complete dump of a radio with this ident and memory yields.
pub open spec fn dumped_image(ident: Seq<u8>, memory: Seq<u8>) -> Seq<u8> {
    ident + dumped_blocks(memory, READS as nat)
}

/// Device address of the `k`-th read of a dump.
pub fn dump_address(k: usize) -> (address: u16)
    requires
        k < READS,
    ensures
        address == read_address(k as int),
{
    if k < MAIN_READS {
        (k * 0x40) as u16
    } else {
        (0x1EC0 + (k - MAIN_READS) * 0x40) as u16
    }
}

/// Device address of the `i`-th write of an upload.
pub fn upload_address(i: usize) -> (address: u16)
    requires
        i < FULL_WRITES,
    ensures
        address == write_address(i as int),
{
    if i < MAIN_WRITES {
        (i * WRITE_SIZE) as u16
    } else {
        (0x1EC0 + (i - MAIN_WRITES) * WRITE_SIZE) as u16
    }
}

/// Whether an image of `len` bytes carries the auxiliary region. One that
/// does not is uploaded without it, and that is no error.
pub fn includes_aux(len: usize) -> (whole: bool)
    ensures
        whole == (len >= FULL_SIZE),
{
    len >= FULL_SIZE
}

/// How many writes an upload of an image of `len` bytes consists of.
pub fn upload_count(len: usize) -> (count: usize)
    requires
        len >= MAIN_SIZE,
    ensures
        count == write_count(len as int),
{
    if includes_aux(len) {
        FULL_WRITES
    } else {
        MAIN_WRITES
    }
}

/// Payload of the `i`-th write of an upload of `image`.
pub fn upload_payload(image: &[u8], i: usize) -> (payload: &[u8])
    requires
        image@.len() >= MAIN_SIZE,
        i < write_count(image@.len() as int),
    ensures
        payload@ == write_payload(image@, i as int),
        1 <= payload@.len() <= WRITE_SIZE,
{
    let start = IDENT_PREFIX + i * WRITE_SIZE;
    let end = if start + WRITE_SIZE <= image.len() {
        start + WRITE_SIZE
    } else {
        image.len()
    };
    slice_subrange(image, start, end)
}

/// Decides whether `image` may be uploaded to the radio that identified itself as `ident`.
pub fn validate_image(image: &[u8], ident: &[u8]) -> (verdict: Result<(), ImageValidationError>)
    ensures
        verdict == image_verdict(image@, ident@),
{
    if image.len() < IDENT_PREFIX || ident.len() != IDENT_PREFIX {
        proof {
            if image@.len() >= IDENT_PREFIX {
                assert(image@.subrange(0, IDENT_PREFIX as int).len() != ident@.len());
            }
        }
        return Err(ImageValidationError::IdentMismatch);
    }
    let mut i: usize = 0;
    while i < IDENT_PREFIX
        invariant
            i <= IDENT_PREFIX,
            image@.len() >= IDENT_PREFIX,
            ident@.len() == IDENT_PREFIX,
            forall|j: int| 0 <= j < i ==> image@[j] == ident@[j],
        decreases IDENT_PREFIX - i,
    {
        if image[i] != ident[i] {
            proof {
                assert(image@.subrange(0, IDENT_PREFIX as int)[i as int] != ident@[i as int]);
            }
            return Err(ImageValidationError::IdentMismatch);
        }
        i += 1;
    }
    assert(image@.subrange(0, IDENT_PREFIX as int) =~= ident@);
    if image.len() < MAIN_SIZE {
        Err(ImageValidationError::ImageTooSmall)
    } else {
        Ok(())
    }
}

/// Every byte that an upload sends goes to the device address that the file
/// layout assigns to its offset: offsets inside the main region map to
/// themselves less the ident prefix, and offset `MAIN_END + k` maps to
/// `AUX_BASE + k`.
pub proof fn lemma_write_addresses_follow_layout(len: int, i: int, j: int)
    requires
        len >= MAIN_SIZE,
        0 <= i < write_count(len),
        write_start(i) <= j < write_end(len, i),
    ensures
        IDENT_PREFIX <= j < FULL_SIZE,
        write_address(i) + (j - write_start(i)) == device_address(j),
        j >= MAIN_END ==> device_address(j) == AUX_BASE + (j - MAIN_END),
{
}

/// The byte at file offset `MAIN_END + k` is sent by the auxiliary write
/// number `k / WRITE_SIZE`, at device address `AUX_BASE + k`.
pub proof fn lemma_aux_offset_remapped(len: int, k: int)
    requires
        len >= FULL_SIZE,
        0 <= k < FULL_SIZE - MAIN_END,
    ensures
        ({
            let i = MAIN_WRITES + k / (WRITE_SIZE as int);
            &&& MAIN_WRITES <= i < write_count(len)
            &&& write_start(i) <= MAIN_END + k < write_end(len, i)
            &&& write_address(i) + (MAIN_END + k - write_start(i)) == AUX_BASE + k
        }),
        device_address(MAIN_END + k) == AUX_BASE + k,
{
}

/// An image without the auxiliary region is uploaded in exactly the writes of
/// the main region, all below `MAIN_SIZE`; an image with it adds exactly
/// `FULL_WRITES - MAIN_WRITES` writes, all at or above `AUX_BASE`.
pub proof fn lemma_aux_writes(len: int)
    requires
        len >= MAIN_SIZE,
    ensures
        len < FULL_SIZE ==> write_count(len) == MAIN_WRITES,
        len >= FULL_SIZE ==> write_count(len) == MAIN_WRITES + 0x14,
        forall|i: int|
            0 <= i < write_count(len) ==> (#[trigger] write_address(i) >= AUX_BASE <==> i
                >= MAIN_WRITES),
        forall|i: int|
            0 <= i < MAIN_WRITES ==> #[trigger] write_address(i) + WRITE_SIZE <= MAIN_SIZE,
{
}

/// The payloads of a dump, laid end to end, are the main region followed by
/// the auxiliary region.
pub proof fn lemma_dumped_blocks(memory: Seq<u8>, n: nat)
    requires
        memory.len() >= DEVICE_SIZE,
        n <= READS,
    ensures
        n <= MAIN_READS ==> dumped_blocks(memory, n) == memory.subrange(0, n * READ_SIZE),
        n >= MAIN_READS ==> dumped_blocks(memory, n) == memory.subrange(0, MAIN_SIZE as int)
            + memory.subrange(AUX_BASE as int, AUX_BASE + (n - MAIN_READS) * READ_SIZE),
    decreases n,
{
    if n > 0 {
        lemma_dumped_blocks(memory, (n - 1) as nat);
        let prev = dumped_blocks(memory, (n - 1) as nat);
        let last = memory.subrange(read_address(n - 1), read_address(n - 1) + READ_SIZE);
        assert(dumped_blocks(memory, n) == prev + last);
        if n <= MAIN_READS {
            assert(prev + last =~= memory.subrange(0, n * READ_SIZE));
        }
        if n >= MAIN_READS {
            assert(prev + last =~= memory.subrange(0, MAIN_SIZE as int) + memory.subrange(
                AUX_BASE as int,
                AUX_BASE + (n - MAIN_READS) * READ_SIZE,
            ));
        }
    } else {
        assert(dumped_blocks(memory, n) =~= memory.subrange(0, 0));
    }
}

/// Round trip. The image dumped from a radio passes validation against that
/// radio's ident, and uploading it sends, write for write, the bytes that the
/// radio's memory already holds at the address written: the writes cover, in
/// the same order, the addresses that the dump read.
pub proof fn lemma_upload_replays_dump(ident: Seq<u8>, memory: Seq<u8>)
    requires
        ident.len() == IDENT_PREFIX,
        memory.len() >= DEVICE_SIZE,
    ensures
        dumped_image(ident, memory).len() == FULL_SIZE,
        image_verdict(dumped_image(ident, memory), ident) is Ok,
        write_count(dumped_image(ident, memory).len() as int) == FULL_WRITES,
        forall|i: int|
            0 <= i < FULL_WRITES ==> #[trigger] write_payload(dumped_image(ident, memory), i)
                == memory.subrange(write_address(i), write_address(i) + WRITE_SIZE),
{
    lemma_dumped_blocks(memory, READS as nat);
    let image = dumped_image(ident, memory);
    assert(image.subrange(0, IDENT_PREFIX as int) =~= ident);
    assert forall|i: int| 0 <= i < FULL_WRITES implies #[trigger] write_payload(image, i)
        == memory.subrange(write_address(i), write_address(i) + WRITE_SIZE) by {
        assert(write_payload(image, i) =~= memory.subrange(
            write_address(i),
            write_address(i) + WRITE_SIZE,
        ));
    }
}

} // verus!
