//! Text for the console: the rows of hex and ASCII in which blocks are shown.
//!
//! A row shows up to [`ROW`] bytes, first as two upper-case hex digits each,
//! separated by spaces, then a tab, then as characters, with a dot for every
//! byte that is not printable ASCII. The text is handed out as ASCII bytes.

use vstd::prelude::*;
use vstd::slice::slice_subrange;

verus! {

/// Bytes shown in one row.
pub const ROW: usize = 8;

/// The character that stands for a byte that cannot be printed.
pub const DOT: u8 = 0x2E;

/// The character between two bytes in hex.
pub const SPACE: u8 = 0x20;

/// The character between the hex and the ASCII part of a row.
pub const TAB: u8 = 0x09;

/// The upper-case hex digit for a value below 16.
pub open spec fn hex_digit(nibble: int) -> u8
    recommends
        0 <= nibble < 16,
{
    if nibble < 10 {
        (0x30 + nibble) as u8
    } else {
        (0x41 + nibble - 10) as u8
    }
}

/// The character a byte is shown as: itself if it is printable ASCII, a dot if not.
pub open spec fn shown(byte: u8) -> u8 {
    if 32 <= byte < 127 {
        byte
    } else {
        DOT
    }
}

/// The bytes of `row` in hex, two digits each, with a space between neighbours.
pub open spec fn hex_text(row: Seq<u8>) -> Seq<u8> {
    Seq::new(
        if row.len() == 0 {
            0
        } else {
            (3 * row.len() - 1) as nat
        },
        |i: int|
            if i % 3 == 0 {
                hex_digit(row[i / 3] as int / 16)
            } else if i % 3 == 1 {
                hex_digit(row[i / 3] as int % 16)
            } else {
                SPACE
            },
    )
}

/// The bytes of `row` as characters.
pub open spec fn ascii_text(row: Seq<u8>) -> Seq<u8> {
    Seq::new(row.len(), |i: int| shown(row[i]))
}

/// The text of one row.
pub open spec fn row_text(row: Seq<u8>) -> Seq<u8> {
    hex_text(row) + seq![TAB] + ascii_text(row)
}

/// How many rows `len` bytes take.
pub open spec fn row_count(len: int) -> int {
    (len + ROW - 1) / (ROW as int)
}

/// The bytes shown in row number `index` of `data`.
pub open spec fn row_of(data: Seq<u8>, index: int) -> Seq<u8> {
    data.subrange(
        index * ROW,
        if index * ROW + ROW <= data.len() {
            index * ROW + ROW
        } else {
            data.len() as int
        },
    )
}

/// The upper-case hex digit for a value below 16.
pub fn hex_char(nibble: u8) -> (digit: u8)
    requires
        nibble < 16,
    ensures
        digit == hex_digit(nibble as int),
{
    if nibble < 10 {
        0x30 + nibble
    } else {
        0x41 + (nibble - 10)
    }
}

/// The text of one row.
pub fn format_row(row: &[u8]) -> (text: Vec<u8>)
    ensures
        text@ == row_text(row@),
        forall|i: int| 0 <= i < text@.len() ==> text@[i] < 128,
{
    let mut text: Vec<u8> = Vec::new();
    let mut i: usize = 0;
    while i < row.len()
        invariant
            i <= row@.len(),
            text@ == hex_text(row@.subrange(0, i as int)),
            forall|j: int| 0 <= j < text@.len() ==> text@[j] < 128,
        decreases row@.len() - i,
    {
        if i > 0 {
            text.push(SPACE);
        }
        text.push(hex_char(row[i] / 16));
        text.push(hex_char(row[i] % 16));
        i += 1;
        assert(text@ =~= hex_text(row@.subrange(0, i as int)));
    }
    assert(row@.subrange(0, i as int) =~= row@);
    text.push(TAB);
    let mut k: usize = 0;
    while k < row.len()
        invariant
            k <= row@.len(),
            text@ == hex_text(row@) + seq![TAB] + ascii_text(row@.subrange(0, k as int)),
            forall|j: int| 0 <= j < text@.len() ==> text@[j] < 128,
        decreases row@.len() - k,
    {
        let byte = row[k];
        let character = if 32 <= byte && byte < 127 {
            byte
        } else {
            DOT
        };
        text.push(character);
        k += 1;
        assert(text@ =~= hex_text(row@) + seq![TAB] + ascii_text(row@.subrange(0, k as int)));
    }
    assert(row@.subrange(0, k as int) =~= row@);
    text
}

/// The text of `data`, row by row.
pub fn format_rows(data: &[u8]) -> (rows: Vec<Vec<u8>>)
    ensures
        rows@.len() == row_count(data@.len() as int),
        forall|r: int| 0 <= r < rows@.len() ==> (#[trigger] rows@[r])@ == row_text(row_of(data@, r)),
{
    let mut rows: Vec<Vec<u8>> = Vec::new();
    let mut start: usize = 0;
    while start < data.len()
        invariant
            start <= data@.len(),
            start == rows@.len() * ROW || start == data@.len(),
            rows@.len() == row_count(start as int),
            forall|r: int|
                0 <= r < rows@.len() ==> (#[trigger] rows@[r])@ == row_text(row_of(data@, r)),
        decreases data@.len() - start,
    {
        let end = if data.len() - start >= ROW {
            start + ROW
        } else {
            data.len()
        };
        let row = format_row(slice_subrange(data, start, end));
        assert(data@.subrange(start as int, end as int) == row_of(data@, rows@.len() as int));
        rows.push(row);
        start = end;
    }
    rows
}

} // verus!
