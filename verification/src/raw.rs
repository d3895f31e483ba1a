//! The raw representation of a tar header block: a fixed 512-byte buffer
//! with named, ranged field accessors, and the block checksum.

use vstd::prelude::*;
use crate::{BasicTarError, ErrKind, err_kind};
use crate::codec::{
    zero_seq, octal_field, pow8, encode_octal, decode_octal_req, decode_octal_req_spec,
    lemma_octal_digits_len,
};

verus! {

/// The length of a tar block.
pub const BLOCK_LEN: usize = 512;

/// The view of an all-zero block.
pub open spec fn zero_block() -> Seq<u8> {
    zero_seq(512)
}

/// Creates a new all-zero raw block.
pub fn raw() -> (r: Vec<u8>)
    ensures
        r@ == zero_block(),
{
    let mut v: Vec<u8> = Vec::new();
    while v.len() < BLOCK_LEN
        invariant
            v@ =~= zero_seq(v@.len()),
            v@.len() <= 512,
        decreases 512 - v@.len(),
    {
        v.push(0x00);
        proof {
            assert(v@ =~= zero_seq(v@.len()));
        }
    }
    proof {
        assert(v@ =~= zero_block());
    }
    v
}

/// The byte-range bounds of the header fields within a block.
pub const NAME_START: usize = 0;
pub const NAME_END: usize = 100;
pub const MODE_START: usize = 100;
pub const MODE_END: usize = 108;
pub const UID_START: usize = 108;
pub const UID_END: usize = 116;
pub const GID_START: usize = 116;
pub const GID_END: usize = 124;
pub const SIZE_START: usize = 124;
pub const SIZE_END: usize = 136;
pub const MTIME_START: usize = 136;
pub const MTIME_END: usize = 148;
pub const CHECKSUM_START: usize = 148;
pub const CHECKSUM_END: usize = 156;
pub const TYPEFLAG_POS: usize = 156;
pub const LINKNAME_START: usize = 157;
pub const LINKNAME_END: usize = 257;

/// The raw form of a classic old-style tar header: an opaque 512-byte
/// buffer read and written through ranged accessors.
pub struct Header {
    bytes: Vec<u8>,
}

impl View for Header {
    type V = Seq<u8>;

    closed spec fn view(&self) -> Seq<u8> {
        self.bytes@
    }
}

impl Header {
    /// A well-formed raw header holds exactly one block.
    pub open spec fn wf(&self) -> bool {
        self@.len() == 512
    }

    /// Wraps a raw block.
    pub fn from_raw(data: Vec<u8>) -> (r: Header)
        requires
            data@.len() == 512,
        ensures
            r@ == data@,
            r.wf(),
    {
        Header { bytes: data }
    }

    /// Hands the underlying block back.
    pub fn into_raw(self) -> (r: Vec<u8>)
        ensures
            r@ == self@,
    {
        self.bytes
    }

    /// A copy of the bytes of the range `[start, end)` of the block.
    pub fn field(&self, start: usize, end: usize) -> (r: Vec<u8>)
        requires
            self.wf(),
            start <= end <= 512,
        ensures
            r@ == self@.subrange(start as int, end as int),
    {
        crate::codec::copy_range(&self.bytes, start, end)
    }

    /// The byte at index `i` of the block.
    pub fn get(&self, i: usize) -> (r: u8)
        requires
            self.wf(),
            i < 512,
        ensures
            r == self@[i as int],
    {
        self.bytes[i]
    }

    /// Overwrites the range starting at `start` with `data`.
    pub fn set_range(&mut self, start: usize, data: &Vec<u8>)
        requires
            old(self).wf(),
            start + data@.len() <= 512,
        ensures
            final(self).wf(),
            final(self)@ == old(self)@.take(start as int) + data@ + old(self)@.skip(
                start as int + data@.len(),
            ),
    {
        let mut j: usize = 0;
        while j < data.len()
            invariant
                old(self).wf(),
                j <= data@.len(),
                start + data@.len() <= 512,
                self@.len() == 512,
                forall|k: int| 0 <= k < start ==> self@[k] == old(self)@[k],
                forall|k: int| start <= k < start + j ==> self@[k] == data@[k - start],
                forall|k: int| start + data@.len() <= k < 512 ==> self@[k] == old(self)@[k],
                forall|k: int| start + j <= k < start + data@.len() ==> self@[k] == old(self)@[k],
            decreases data@.len() - j,
        {
            let b = data[j];
            self.bytes[start + j] = b;
            j += 1;
        }
        proof {
            assert(self@ =~= old(self)@.take(start as int) + data@ + old(self)@.skip(
                start as int + data@.len(),
            ));
        }
    }
}

/// Creates a new all-zero raw header.
pub fn header() -> (r: Header)
    ensures
        r@ == zero_block(),
        r.wf(),
{
    Header::from_raw(raw())
}

/// The type flags which indicate the record type.
pub struct TypeFlag;

impl TypeFlag {
    /// The type flag for a regular file.
    pub const REGULAR: u8 = 0x30;

    /// The type flag for a hardlink.
    pub const HARDLINK: u8 = 0x31;

    /// The type flag for a symlink.
    pub const SYMLINK: u8 = 0x32;

    /// The type flag for a character device.
    pub const CHAR_DEV: u8 = 0x33;

    /// The type flag for a block device.
    pub const BLOCK_DEV: u8 = 0x34;

    /// The type flag for a directory.
    pub const DIRECTORY: u8 = 0x35;

    /// The type flag for a FIFO node (named pipe).
    pub const FIFO_NODE: u8 = 0x36;

    /// Reserved to represent a file with some high-performance attribute.
    pub const RESERVED: u8 = 0x37;

    /// The type flag for a pax interchange record that only affects the
    /// next file.
    pub const PAX_SINGLE: u8 = 0x78;

    /// The type flag for a pax interchange record that affects all
    /// subsequent files.
    pub const PAX_GLOBAL: u8 = 0x67;
}

// ---------------------------------------------------------------------------
// Checksum
// ---------------------------------------------------------------------------

/// The sum of the bytes of `s`.
pub open spec fn byte_sum(s: Seq<u8>) -> int
    decreases s.len(),
{
    if s.len() == 0 {
        0
    } else {
        byte_sum(s.drop_last()) + s.last()
    }
}

pub proof fn lemma_byte_sum_bound(s: Seq<u8>)
    ensures
        0 <= byte_sum(s) <= 255 * s.len(),
    decreases s.len(),
{
    if s.len() > 0 {
        lemma_byte_sum_bound(s.drop_last());
    }
}

/// The block with its checksum field replaced by ASCII spaces: the byte
/// sequence the checksum is taken over.
pub open spec fn checksum_input(s: Seq<u8>) -> Seq<u8> {
    Seq::new(
        s.len(),
        |i: int|
            if 148 <= i < 156 {
                0x20u8
            } else {
                s[i]
            },
    )
}

/// The checksum of a block: the sum of all its bytes, with the checksum
/// field itself read as spaces.
pub open spec fn checksum_of(s: Seq<u8>) -> int {
    byte_sum(checksum_input(s))
}

/// How checksum verification decides: the stored octal value must decode
/// and equal the recomputed checksum.
pub open spec fn verify_spec(s: Seq<u8>) -> Result<(), ErrKind> {
    match decode_octal_req_spec(s.subrange(148, 156)) {
        Err(k) => Err(k),
        Ok(v) => if v == checksum_of(s) {
            Ok(())
        } else {
            Err(ErrKind::InvalidData)
        },
    }
}

/// Helpers for checksum computation and verification.
pub struct Checksum;

impl Checksum {
    /// Computes the checksum over the block.
    pub fn compute(tar: &Header) -> (r: u64)
        requires
            tar.wf(),
        ensures
            r == checksum_of(tar@),
    {
        let ghost input = checksum_input(tar@);
        let mut sum: u64 = 0;
        let mut i: usize = 0;
        let bytes = tar.field(0, BLOCK_LEN);
        while i < BLOCK_LEN
            invariant
                0 <= i <= 512,
                tar.wf(),
                input == checksum_input(tar@),
                bytes@ == tar@.subrange(0, 512),
                sum == byte_sum(input.take(i as int)),
                sum <= 255 * i,
            decreases 512 - i,
        {
            let b: u8 = if i >= 148 && i < 156 {
                0x20
            } else {
                bytes[i]
            };
            proof {
                assert(input.take(i + 1).drop_last() =~= input.take(i as int));
                assert(input.take(i + 1).last() == b);
            }
            sum = sum + b as u64;
            i += 1;
        }
        proof {
            assert(input.take(512) =~= input);
        }
        sum
    }

    /// Computes the checksum over the block and writes it, octal-encoded,
    /// into the checksum field.  This never fails: the checksum of a block
    /// always fits its field.
    pub fn write(tar: &mut Header)
        requires
            old(tar).wf(),
        ensures
            final(tar).wf(),
            final(tar)@ == old(tar)@.take(148) + octal_field(checksum_of(old(tar)@) as nat, 8)
                + old(tar)@.skip(156),
    {
        let c = Self::compute(tar);
        proof {
            lemma_byte_sum_bound(checksum_input(tar@));
            assert(pow8(7) == 2097152) by {
                reveal_with_fuel(pow8, 8);
            }
            lemma_octal_digits_len(c as nat, 7);
        }
        match encode_octal(Some(c), 8) {
            Ok(f) => {
                proof {
                    assert(f@.len() == 8);
                }
                tar.set_range(148, &f);
            },
            Err(_) => {
                proof {
                    assert(false);
                }
            },
        }
    }

    /// Verifies the checksum of the block against the value stored in its
    /// checksum field.
    pub fn verify(tar: &Header) -> (r: Result<(), BasicTarError>)
        requires
            tar.wf(),
        ensures
            r is Ok <==> verify_spec(tar@) is Ok,
            r is Err ==> err_kind(r->Err_0) == verify_spec(tar@)->Err_0,
    {
        let computed = Self::compute(tar);
        let f = tar.field(CHECKSUM_START, CHECKSUM_END);
        match decode_octal_req(&f) {
            Err(e) => Err(e),
            Ok(stored) => {
                if computed == stored {
                    Ok(())
                } else {
                    Err(BasicTarError::InvalidData("Invalid header checksum"))
                }
            },
        }
    }
}

} // verus!
