//! Bytes on the wire: protocol constants, frame layout and the error taxonomy.

use vstd::prelude::*;

verus! {

/// Acknowledgement byte, sent by either side to accept the previous frame.
pub const ACK: u8 = 0x06;

/// Byte that ends an ident shorter than [`IDENT_MAX`].
pub const IDENT_END: u8 = 0xDD;

/// Single-byte request for the ident, sent once the radio has acknowledged the magic.
pub const IDENT_REQUEST: u8 = 0x02;

/// First byte of a read request.
pub const READ_TAG: u8 = 0x53;

/// First byte of a block of data, in a read response as well as in a write frame.
pub const DATA_TAG: u8 = 0x58;

/// Shortest ident the handshake accepts.
pub const IDENT_MIN: usize = 8;

/// Longest ident; after this many bytes the radio sends no terminator.
pub const IDENT_MAX: usize = 12;

/// Largest payload a single read may ask for.
pub const MAX_READ: u8 = 0x40;

/// Milliseconds the radio needs after the magic before it answers.
pub const SETTLE_MS: u64 = 50;

/// Why an exchange, or a whole operation, was given up.
#[derive(Clone, Copy, Debug, PartialEq, Eq)]
pub enum Error {
    /// The serial line failed, timed out, or did not deliver what was asked of it.
    Transport,
    /// The radio answered with something the protocol does not allow.
    Protocol(ProtocolViolation),
    /// The image offered for upload does not fit the connected radio.
    Image(ImageValidationError),
}

/// The unexpected answers the radio can give.
#[derive(Clone, Copy, Debug, PartialEq, Eq)]
pub enum ProtocolViolation {
    /// The magic sequence was not acknowledged.
    HandshakeRejected,
    /// The ident ended before [`IDENT_MIN`] bytes.
    InvalidIdentLength,
    /// The radio did not confirm clone mode after the ident.
    CloneRejected,
    /// A read request that follows another block was not acknowledged.
    ReadRejected,
    /// A read response did not start with [`DATA_TAG`].
    InvalidResponseTag,
    /// A read response echoed another address than the one requested.
    AddressMismatch,
    /// A read response echoed another size than the one requested.
    SizeMismatch,
}

/// The ways an image can fail validation before an upload.
#[derive(Clone, Copy, Debug, PartialEq, Eq)]
pub enum ImageValidationError {
    /// The first bytes of the image are not the ident of the connected radio.
    IdentMismatch,
    /// The image is shorter than the main memory region.
    ImageTooSmall,
}

/// The magic sequence that opens the handshake.
pub open spec fn magic() -> Seq<u8> {
    seq![0x50u8, 0xBBu8, 0xFFu8, 0x20u8, 0x12u8, 0x07u8, 0x25u8]
}

/// High byte of a device address.
pub open spec fn addr_hi(address: u16) -> u8 {
    (address / 256) as u8
}

/// Low byte of a device address.
pub open spec fn addr_lo(address: u16) -> u8 {
    (address % 256) as u8
}

/// The address that two bytes spell, most significant first.
pub open spec fn addr_of(hi: u8, lo: u8) -> int {
    hi * 256 + lo
}

/// The four bytes that ask the radio for `size` bytes at `address`.
pub open spec fn read_request(address: u16, size: u8) -> Seq<u8> {
    seq![READ_TAG, addr_hi(address), addr_lo(address), size]
}

/// The header that a well-formed response to `read_request(address, size)` starts with,
/// and also the header of a write frame that carries `size` bytes.
pub open spec fn data_header(address: u16, size: u8) -> Seq<u8> {
    seq![DATA_TAG, addr_hi(address), addr_lo(address), size]
}

/// The frame that writes `data` at `address`.
pub open spec fn write_frame(address: u16, data: Seq<u8>) -> Seq<u8>
    recommends
        data.len() <= 255,
{
    data_header(address, data.len() as u8) + data
}

/// What the four bytes of a read response header mean for a request of
/// `size` bytes at `address`: the first disagreement found, in the order
/// tag, address, size.
pub open spec fn header_verdict(header: Seq<u8>, address: u16, size: u8) -> Result<
    (),
    ProtocolViolation,
>
    recommends
        header.len() == 4,
{
    if header[0] != DATA_TAG {
        Err(ProtocolViolation::InvalidResponseTag)
    } else if addr_of(header[1], header[2]) != address {
        Err(ProtocolViolation::AddressMismatch)
    } else if header[3] != size {
        Err(ProtocolViolation::SizeMismatch)
    } else {
        Ok(())
    }
}

/// Builds the magic sequence.
pub fn encode_magic() -> (frame: Vec<u8>)
    ensures
        frame@ == magic(),
{
    let frame = vec![0x50u8, 0xBBu8, 0xFFu8, 0x20u8, 0x12u8, 0x07u8, 0x25u8];
    assert(frame@ =~= magic());
    frame
}

/// Builds the request for `size` bytes at `address`.
pub fn encode_read_request(address: u16, size: u8) -> (frame: Vec<u8>)
    ensures
        frame@ == read_request(address, size),
{
    let frame = vec![READ_TAG, (address / 256) as u8, (address % 256) as u8, size];
    assert(frame@ =~= read_request(address, size));
    frame
}

/// Builds the frame that writes `data` at `address`.
pub fn encode_write_frame(address: u16, data: &[u8]) -> (frame: Vec<u8>)
    requires
        data@.len() <= 255,
    ensures
        frame@ == write_frame(address, data@),
{
    let mut frame = vec![DATA_TAG, (address / 256) as u8, (address % 256) as u8, data.len() as u8];
    let mut i: usize = 0;
    while i < data.len()
        invariant
            i <= data@.len(),
            data@.len() <= 255,
            frame@ == data_header(address, data@.len() as u8) + data@.subrange(0, i as int),
        decreases data@.len() - i,
    {
        frame.push(data[i]);
        i += 1;
    }
    assert(data@.subrange(0, i as int) =~= data@);
    frame
}

/// Checks the header of a read response against the request it answers.
pub fn check_read_header(header: &[u8], address: u16, size: u8) -> (verdict: Result<
    (),
    ProtocolViolation,
>)
    requires
        header@.len() == 4,
    ensures
        verdict == header_verdict(header@, address, size),
{
    if header[0] != DATA_TAG {
        return Err(ProtocolViolation::InvalidResponseTag);
    }
    let echoed: u16 = (header[1] as u16) * 256 + (header[2] as u16);
    if echoed != address {
        return Err(ProtocolViolation::AddressMismatch);
    }
    if header[3] != size {
        return Err(ProtocolViolation::SizeMismatch);
    }
    Ok(())
}

/// A header is accepted exactly when it is the one the request calls for.
pub proof fn lemma_header_accepted_iff_echo(header: Seq<u8>, address: u16, size: u8)
    requires
        header.len() == 4,
    ensures
        header_verdict(header, address, size) is Ok <==> header == data_header(address, size),
{
    if header_verdict(header, address, size) is Ok {
        assert(header =~= data_header(address, size));
    }
}

} // verus!
