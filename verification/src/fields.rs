//! Widths and offsets of the fixed DNS message fields, shared by the
//! query encoder and the response decoder, and the big-endian view of a
//! two-byte field.

use vstd::prelude::*;

verus! {

/// Size of the fixed message header in bytes.
pub const HEADER_SECTION_SIZE: usize = 12;

/// Width of the query identifier field.
pub const ID_SIZE: usize = 2;

/// Width of the flags field.
pub const FLAGS_SIZE: usize = 2;

/// Width of the question-count field.
pub const QDCOUNT_SIZE: usize = 2;

/// Offset of the answer-count field within the header.
pub const ANCOUNT_OFFSET: usize = 6;

/// Width of the question type field.
pub const QTYPE_SIZE: usize = 2;

/// Width of the question class field.
pub const QCLASS_SIZE: usize = 2;

/// Width of an answer record's name field. Answer names are assumed to be
/// compression pointers, which always take exactly two bytes.
pub const NAME_SIZE: usize = 2;

/// Width of a resource record's type field.
pub const TYPE_SIZE: usize = 2;

/// Width of a resource record's class field.
pub const CLASS_SIZE: usize = 2;

/// Width of a resource record's time-to-live field.
pub const TTL_SIZE: usize = 4;

/// Width of a resource record's data-length field.
pub const DATA_LENGTH_SIZE: usize = 2;

/// Record type number of an A record.
pub const TYPE_A: u16 = 1;

/// The value of a two-byte big-endian field with bytes `hi`, `lo`.
pub open spec fn be16(hi: u8, lo: u8) -> int {
    256 * (hi as int) + (lo as int)
}

/// The value of a four-byte big-endian field.
pub open spec fn be32(b0: u8, b1: u8, b2: u8, b3: u8) -> int {
    0x1000000 * (b0 as int) + 0x10000 * (b1 as int) + 0x100 * (b2 as int) + (b3 as int)
}

} // verus!
