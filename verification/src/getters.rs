//! Little-endian field readers shared by all instruction formats.
//!
//! An instruction is a window of bytes; every operand slot is read
//! from that window as a low nibble, a high nibble, or a 1, 2, 4 or
//! 8 byte little-endian field.

use vstd::prelude::*;

use crate::disass::DecodeError;

verus! {

/// The fixed instruction encodings.  A format's name spells the
/// instruction's bytes after the opcode byte: `AA` is an 8-bit slot,
/// `BA` packs slot A in the low and slot B in the high nibble of one
/// byte, `BBBB` is a little-endian 16-bit slot, and so on.  The
/// formats named with a `t` suffix carry a branch offset, which is
/// sign-extended when read.
#[derive(Clone, Copy, PartialEq, Eq, Structural, Debug)]
pub enum InstFormat {
    Op00,
    OpAA,
    Op10t,
    OpBA,
    Op00AAAA,
    Op20t,
    OpAABBBB,
    Op21t,
    OpAACCBB,
    OpBACCCC,
    Op22t,
    Op00AAAAAAAA,
    Op30t,
    Op00AAAABBBB,
    OpAABBBBBBBB,
    OpAABBBBCCCC,
    OpAGBBBBDCFE,
    OpAABBBBCCCCHHHH,
    OpAGBBBBDCFEHHHH,
    OpAABBBBBBBBBBBBBBBB,
}

/// Little-endian 16-bit value of the two bytes at `i`.
pub open spec fn spec_le16(data: Seq<u8>, i: int) -> u64 {
    (data[i] + 0x100 * data[i + 1]) as u64
}

/// Little-endian 32-bit value of the four bytes at `i`.
pub open spec fn spec_le32(data: Seq<u8>, i: int) -> u64 {
    (data[i] + 0x100 * data[i + 1] + 0x1_0000 * data[i + 2] + 0x100_0000 * data[i + 3]) as u64
}

/// Little-endian 64-bit value of the eight bytes at `i`.
pub open spec fn spec_le64(data: Seq<u8>, i: int) -> u64 {
    (data[i] + 0x100 * data[i + 1] + 0x1_0000 * data[i + 2] + 0x100_0000 * data[i + 3]
        + 0x1_0000_0000 * data[i + 4] + 0x100_0000_0000 * data[i + 5] + 0x1_0000_0000_0000 * data[i
        + 6] + 0x100_0000_0000_0000 * data[i + 7]) as u64
}

/// An 8-bit branch offset sign-extended into 64 bits.
pub open spec fn spec_sext8(b: u8) -> u64 {
    if b < 0x80 {
        b as u64
    } else {
        (0xFFFF_FFFF_FFFF_FF00 + b) as u64
    }
}

/// A 16-bit branch offset sign-extended into 64 bits.
pub open spec fn spec_sext16(v: u64) -> u64 {
    if v < 0x8000 {
        v
    } else {
        (0xFFFF_FFFF_FFFF_0000 + v) as u64
    }
}

/// A 32-bit branch offset sign-extended into 64 bits.
pub open spec fn spec_sext32(v: u64) -> u64 {
    if v < 0x8000_0000 {
        v
    } else {
        (0xFFFF_FFFF_0000_0000 + v) as u64
    }
}

impl InstFormat {
    /// Total length in bytes of an instruction of this format.
    pub open spec fn spec_length(self) -> int {
        match self {
            InstFormat::Op00 => 2,
            InstFormat::OpAA => 2,
            InstFormat::Op10t => 2,
            InstFormat::OpBA => 2,
            InstFormat::Op00AAAA => 4,
            InstFormat::Op20t => 4,
            InstFormat::OpAABBBB => 4,
            InstFormat::Op21t => 4,
            InstFormat::OpAACCBB => 4,
            InstFormat::OpBACCCC => 4,
            InstFormat::Op22t => 4,
            InstFormat::Op00AAAAAAAA => 6,
            InstFormat::Op30t => 6,
            InstFormat::Op00AAAABBBB => 6,
            InstFormat::OpAABBBBBBBB => 6,
            InstFormat::OpAABBBBCCCC => 6,
            InstFormat::OpAGBBBBDCFE => 6,
            InstFormat::OpAABBBBCCCCHHHH => 8,
            InstFormat::OpAGBBBBDCFEHHHH => 8,
            InstFormat::OpAABBBBBBBBBBBBBBBB => 10,
        }
    }

    /// Total length in bytes of an instruction of this format: 2, 4,
    /// 6, 8 or 10.
    pub fn length(&self) -> (r: usize)
        ensures
            r == self.spec_length(),
    {
        match *self {
            InstFormat::Op00 => 2,
            InstFormat::OpAA => 2,
            InstFormat::Op10t => 2,
            InstFormat::OpBA => 2,
            InstFormat::Op00AAAA => 4,
            InstFormat::Op20t => 4,
            InstFormat::OpAABBBB => 4,
            InstFormat::Op21t => 4,
            InstFormat::OpAACCBB => 4,
            InstFormat::OpBACCCC => 4,
            InstFormat::Op22t => 4,
            InstFormat::Op00AAAAAAAA => 6,
            InstFormat::Op30t => 6,
            InstFormat::Op00AAAABBBB => 6,
            InstFormat::OpAABBBBBBBB => 6,
            InstFormat::OpAABBBBCCCC => 6,
            InstFormat::OpAGBBBBDCFE => 6,
            InstFormat::OpAABBBBCCCCHHHH => 8,
            InstFormat::OpAGBBBBDCFEHHHH => 8,
            InstFormat::OpAABBBBBBBBBBBBBBBB => 10,
        }
    }

    /// Whether slot A is defined for this format.
    pub open spec fn a_defined(self) -> bool {
        self != InstFormat::Op00
    }

    /// Whether slot B is defined for this format.
    pub open spec fn b_defined(self) -> bool {
        match self {
            InstFormat::Op00 => false,
            InstFormat::OpAA => false,
            InstFormat::Op10t => false,
            InstFormat::Op00AAAA => false,
            InstFormat::Op20t => false,
            InstFormat::Op00AAAAAAAA => false,
            InstFormat::Op30t => false,
            _ => true,
        }
    }

    /// Whether slot C is defined for this format.
    pub open spec fn c_defined(self) -> bool {
        match self {
            InstFormat::OpAACCBB => true,
            InstFormat::OpBACCCC => true,
            InstFormat::Op22t => true,
            InstFormat::OpAABBBBCCCC => true,
            InstFormat::OpAGBBBBDCFE => true,
            InstFormat::OpAABBBBCCCCHHHH => true,
            InstFormat::OpAGBBBBDCFEHHHH => true,
            _ => false,
        }
    }

    /// Whether slots D, E, F and G are defined for this format.
    pub open spec fn defg_defined(self) -> bool {
        self == InstFormat::OpAGBBBBDCFE || self == InstFormat::OpAGBBBBDCFEHHHH
    }

    /// Whether slot H is defined for this format.
    pub open spec fn h_defined(self) -> bool {
        self == InstFormat::OpAABBBBCCCCHHHH || self == InstFormat::OpAGBBBBDCFEHHHH
    }

    /// Value of slot A of an instruction window in this format.
    pub open spec fn spec_a(self, data: Seq<u8>) -> u64 {
        match self {
            InstFormat::Op00 => 0,
            InstFormat::OpAA => data[1] as u64,
            InstFormat::Op10t => spec_sext8(data[1]),
            InstFormat::OpBA => (data[1] % 16) as u64,
            InstFormat::Op00AAAA => spec_le16(data, 2),
            InstFormat::Op20t => spec_sext16(spec_le16(data, 2)),
            InstFormat::OpAABBBB => data[1] as u64,
            InstFormat::Op21t => data[1] as u64,
            InstFormat::OpAACCBB => data[1] as u64,
            InstFormat::OpBACCCC => (data[1] % 16) as u64,
            InstFormat::Op22t => (data[1] % 16) as u64,
            InstFormat::Op00AAAAAAAA => spec_le32(data, 2),
            InstFormat::Op30t => spec_sext32(spec_le32(data, 2)),
            InstFormat::Op00AAAABBBB => spec_le16(data, 2),
            InstFormat::OpAABBBBBBBB => data[1] as u64,
            InstFormat::OpAABBBBCCCC => data[1] as u64,
            InstFormat::OpAGBBBBDCFE => (data[1] / 16) as u64,
            InstFormat::OpAABBBBCCCCHHHH => data[1] as u64,
            InstFormat::OpAGBBBBDCFEHHHH => (data[1] / 16) as u64,
            InstFormat::OpAABBBBBBBBBBBBBBBB => data[1] as u64,
        }
    }

    /// Value of slot B of an instruction window in this format.
    pub open spec fn spec_b(self, data: Seq<u8>) -> u64 {
        match self {
            InstFormat::OpBA => (data[1] / 16) as u64,
            InstFormat::OpAABBBB => spec_le16(data, 2),
            InstFormat::Op21t => spec_sext16(spec_le16(data, 2)),
            InstFormat::OpAACCBB => data[2] as u64,
            InstFormat::OpBACCCC => (data[1] / 16) as u64,
            InstFormat::Op22t => (data[1] / 16) as u64,
            InstFormat::Op00AAAABBBB => spec_le16(data, 4),
            InstFormat::OpAABBBBBBBB => spec_le32(data, 2),
            InstFormat::OpAABBBBCCCC => spec_le16(data, 2),
            InstFormat::OpAGBBBBDCFE => spec_le16(data, 2),
            InstFormat::OpAABBBBCCCCHHHH => spec_le16(data, 2),
            InstFormat::OpAGBBBBDCFEHHHH => spec_le16(data, 2),
            InstFormat::OpAABBBBBBBBBBBBBBBB => spec_le64(data, 2),
            _ => 0,
        }
    }

    /// Value of slot C of an instruction window in this format.
    pub open spec fn spec_c(self, data: Seq<u8>) -> u64 {
        match self {
            InstFormat::OpAACCBB => data[3] as u64,
            InstFormat::OpBACCCC => spec_le16(data, 2),
            InstFormat::Op22t => spec_sext16(spec_le16(data, 2)),
            InstFormat::OpAABBBBCCCC => spec_le16(data, 4),
            InstFormat::OpAGBBBBDCFE => (data[4] % 16) as u64,
            InstFormat::OpAABBBBCCCCHHHH => spec_le16(data, 4),
            InstFormat::OpAGBBBBDCFEHHHH => (data[4] % 16) as u64,
            _ => 0,
        }
    }

    /// Value of slot D of an instruction window in this format.
    pub open spec fn spec_d(self, data: Seq<u8>) -> u64 {
        (data[4] / 16) as u64
    }

    /// Value of slot E of an instruction window in this format.
    pub open spec fn spec_e(self, data: Seq<u8>) -> u64 {
        (data[5] % 16) as u64
    }

    /// Value of slot F of an instruction window in this format.
    pub open spec fn spec_f(self, data: Seq<u8>) -> u64 {
        (data[5] / 16) as u64
    }

    /// Value of slot G of an instruction window in this format.
    pub open spec fn spec_g(self, data: Seq<u8>) -> u64 {
        (data[1] % 16) as u64
    }

    /// Value of slot H of an instruction window in this format.
    pub open spec fn spec_h(self, data: Seq<u8>) -> u64 {
        spec_le16(data, 6)
    }

    /// Slot A, or a typed error where the format does not define it
    /// or the window is too short.
    pub fn a(&self, data: &[u8]) -> (r: Result<u64, DecodeError>)
        ensures
            r == (if !self.a_defined() {
                Err::<u64, DecodeError>(DecodeError::InvalidSlot)
            } else if data@.len() < self.spec_length() {
                Err::<u64, DecodeError>(DecodeError::Truncated)
            } else {
                Ok::<u64, DecodeError>(self.spec_a(data@))
            }),
    {
        if matches!(*self, InstFormat::Op00) {
            return Err(DecodeError::InvalidSlot);
        }
        if data.len() < self.length() {
            return Err(DecodeError::Truncated);
        }
        match *self {
            InstFormat::Op00 => Err(DecodeError::InvalidSlot),
            InstFormat::OpAA => Ok(data[1] as u64),
            InstFormat::Op10t => Ok(sext8(data[1])),
            InstFormat::OpBA => Ok((data[1] % 16) as u64),
            InstFormat::Op00AAAA => Ok(le16_at(data, 2)),
            InstFormat::Op20t => Ok(sext16(le16_at(data, 2))),
            InstFormat::OpAABBBB => Ok(data[1] as u64),
            InstFormat::Op21t => Ok(data[1] as u64),
            InstFormat::OpAACCBB => Ok(data[1] as u64),
            InstFormat::OpBACCCC => Ok((data[1] % 16) as u64),
            InstFormat::Op22t => Ok((data[1] % 16) as u64),
            InstFormat::Op00AAAAAAAA => Ok(le32_at(data, 2)),
            InstFormat::Op30t => Ok(sext32(le32_at(data, 2))),
            InstFormat::Op00AAAABBBB => Ok(le16_at(data, 2)),
            InstFormat::OpAABBBBBBBB => Ok(data[1] as u64),
            InstFormat::OpAABBBBCCCC => Ok(data[1] as u64),
            InstFormat::OpAGBBBBDCFE => Ok((data[1] / 16) as u64),
            InstFormat::OpAABBBBCCCCHHHH => Ok(data[1] as u64),
            InstFormat::OpAGBBBBDCFEHHHH => Ok((data[1] / 16) as u64),
            InstFormat::OpAABBBBBBBBBBBBBBBB => Ok(data[1] as u64),
        }
    }

    /// Slot B, or a typed error where the format does not define it
    /// or the window is too short.
    pub fn b(&self, data: &[u8]) -> (r: Result<u64, DecodeError>)
        ensures
            r == (if !self.b_defined() {
                Err::<u64, DecodeError>(DecodeError::InvalidSlot)
            } else if data@.len() < self.spec_length() {
                Err::<u64, DecodeError>(DecodeError::Truncated)
            } else {
                Ok::<u64, DecodeError>(self.spec_b(data@))
            }),
    {
        if matches!(
            *self,
            InstFormat::Op00 | InstFormat::OpAA | InstFormat::Op10t | InstFormat::Op00AAAA
                | InstFormat::Op20t | InstFormat::Op00AAAAAAAA | InstFormat::Op30t
        ) {
            return Err(DecodeError::InvalidSlot);
        }
        if data.len() < self.length() {
            return Err(DecodeError::Truncated);
        }
        match *self {
            InstFormat::OpBA => Ok((data[1] / 16) as u64),
            InstFormat::OpAABBBB => Ok(le16_at(data, 2)),
            InstFormat::Op21t => Ok(sext16(le16_at(data, 2))),
            InstFormat::OpAACCBB => Ok(data[2] as u64),
            InstFormat::OpBACCCC => Ok((data[1] / 16) as u64),
            InstFormat::Op22t => Ok((data[1] / 16) as u64),
            InstFormat::Op00AAAABBBB => Ok(le16_at(data, 4)),
            InstFormat::OpAABBBBBBBB => Ok(le32_at(data, 2)),
            InstFormat::OpAABBBBCCCC => Ok(le16_at(data, 2)),
            InstFormat::OpAGBBBBDCFE => Ok(le16_at(data, 2)),
            InstFormat::OpAABBBBCCCCHHHH => Ok(le16_at(data, 2)),
            InstFormat::OpAGBBBBDCFEHHHH => Ok(le16_at(data, 2)),
            InstFormat::OpAABBBBBBBBBBBBBBBB => Ok(le64_at(data, 2)),
            _ => Err(DecodeError::InvalidSlot),
        }
    }

    /// Slot C, or a typed error where the format does not define it
    /// or the window is too short.
    pub fn c(&self, data: &[u8]) -> (r: Result<u64, DecodeError>)
        ensures
            r == (if !self.c_defined() {
                Err::<u64, DecodeError>(DecodeError::InvalidSlot)
            } else if data@.len() < self.spec_length() {
                Err::<u64, DecodeError>(DecodeError::Truncated)
            } else {
                Ok::<u64, DecodeError>(self.spec_c(data@))
            }),
    {
        if !matches!(
            *self,
            InstFormat::OpAACCBB | InstFormat::OpBACCCC | InstFormat::Op22t
                | InstFormat::OpAABBBBCCCC | InstFormat::OpAGBBBBDCFE
                | InstFormat::OpAABBBBCCCCHHHH | InstFormat::OpAGBBBBDCFEHHHH
        ) {
            return Err(DecodeError::InvalidSlot);
        }
        if data.len() < self.length() {
            return Err(DecodeError::Truncated);
        }
        match *self {
            InstFormat::OpAACCBB => Ok(data[3] as u64),
            InstFormat::OpBACCCC => Ok(le16_at(data, 2)),
            InstFormat::Op22t => Ok(sext16(le16_at(data, 2))),
            InstFormat::OpAABBBBCCCC => Ok(le16_at(data, 4)),
            InstFormat::OpAGBBBBDCFE => Ok((data[4] % 16) as u64),
            InstFormat::OpAABBBBCCCCHHHH => Ok(le16_at(data, 4)),
            InstFormat::OpAGBBBBDCFEHHHH => Ok((data[4] % 16) as u64),
            _ => Err(DecodeError::InvalidSlot),
        }
    }

    /// Slot D, or a typed error where the format does not define it
    /// or the window is too short.
    pub fn d(&self, data: &[u8]) -> (r: Result<u64, DecodeError>)
        ensures
            r == (if !self.defg_defined() {
                Err::<u64, DecodeError>(DecodeError::InvalidSlot)
            } else if data@.len() < self.spec_length() {
                Err::<u64, DecodeError>(DecodeError::Truncated)
            } else {
                Ok::<u64, DecodeError>(self.spec_d(data@))
            }),
    {
        if !matches!(*self, InstFormat::OpAGBBBBDCFE | InstFormat::OpAGBBBBDCFEHHHH) {
            return Err(DecodeError::InvalidSlot);
        }
        if data.len() < self.length() {
            return Err(DecodeError::Truncated);
        }
        Ok((data[4] / 16) as u64)
    }

    /// Slot E, or a typed error where the format does not define it
    /// or the window is too short.
    pub fn e(&self, data: &[u8]) -> (r: Result<u64, DecodeError>)
        ensures
            r == (if !self.defg_defined() {
                Err::<u64, DecodeError>(DecodeError::InvalidSlot)
            } else if data@.len() < self.spec_length() {
                Err::<u64, DecodeError>(DecodeError::Truncated)
            } else {
                Ok::<u64, DecodeError>(self.spec_e(data@))
            }),
    {
        if !matches!(*self, InstFormat::OpAGBBBBDCFE | InstFormat::OpAGBBBBDCFEHHHH) {
            return Err(DecodeError::InvalidSlot);
        }
        if data.len() < self.length() {
            return Err(DecodeError::Truncated);
        }
        Ok((data[5] % 16) as u64)
    }

    /// Slot F, or a typed error where the format does not define it
    /// or the window is too short.
    pub fn f(&self, data: &[u8]) -> (r: Result<u64, DecodeError>)
        ensures
            r == (if !self.defg_defined() {
                Err::<u64, DecodeError>(DecodeError::InvalidSlot)
            } else if data@.len() < self.spec_length() {
                Err::<u64, DecodeError>(DecodeError::Truncated)
            } else {
                Ok::<u64, DecodeError>(self.spec_f(data@))
            }),
    {
        if !matches!(*self, InstFormat::OpAGBBBBDCFE | InstFormat::OpAGBBBBDCFEHHHH) {
            return Err(DecodeError::InvalidSlot);
        }
        if data.len() < self.length() {
            return Err(DecodeError::Truncated);
        }
        Ok((data[5] / 16) as u64)
    }

    /// Slot G, or a typed error where the format does not define it
    /// or the window is too short.
    pub fn g(&self, data: &[u8]) -> (r: Result<u64, DecodeError>)
        ensures
            r == (if !self.defg_defined() {
                Err::<u64, DecodeError>(DecodeError::InvalidSlot)
            } else if data@.len() < self.spec_length() {
                Err::<u64, DecodeError>(DecodeError::Truncated)
            } else {
                Ok::<u64, DecodeError>(self.spec_g(data@))
            }),
    {
        if !matches!(*self, InstFormat::OpAGBBBBDCFE | InstFormat::OpAGBBBBDCFEHHHH) {
            return Err(DecodeError::InvalidSlot);
        }
        if data.len() < self.length() {
            return Err(DecodeError::Truncated);
        }
        Ok((data[1] % 16) as u64)
    }

    /// Slot H, or a typed error where the format does not define it
    /// or the window is too short.
    pub fn h(&self, data: &[u8]) -> (r: Result<u64, DecodeError>)
        ensures
            r == (if !self.h_defined() {
                Err::<u64, DecodeError>(DecodeError::InvalidSlot)
            } else if data@.len() < self.spec_length() {
                Err::<u64, DecodeError>(DecodeError::Truncated)
            } else {
                Ok::<u64, DecodeError>(self.spec_h(data@))
            }),
    {
        if !matches!(*self, InstFormat::OpAABBBBCCCCHHHH | InstFormat::OpAGBBBBDCFEHHHH) {
            return Err(DecodeError::InvalidSlot);
        }
        if data.len() < self.length() {
            return Err(DecodeError::Truncated);
        }
        Ok(le16_at(data, 6))
    }
}

/// Little-endian 16-bit field of the two bytes at `i`.
pub fn le16_at(data: &[u8], i: usize) -> (r: u64)
    requires
        i + 2 <= data@.len(),
    ensures
        r == spec_le16(data@, i as int),
{
    data[i] as u64 + 0x100 * (data[i + 1] as u64)
}

/// Little-endian 32-bit field of the four bytes at `i`.
pub fn le32_at(data: &[u8], i: usize) -> (r: u64)
    requires
        i + 4 <= data@.len(),
    ensures
        r == spec_le32(data@, i as int),
{
    data[i] as u64 + 0x100 * (data[i + 1] as u64) + 0x1_0000 * (data[i + 2] as u64) + 0x100_0000
        * (data[i + 3] as u64)
}

/// Little-endian 64-bit field of the eight bytes at `i`.
pub fn le64_at(data: &[u8], i: usize) -> (r: u64)
    requires
        i + 8 <= data@.len(),
    ensures
        r == spec_le64(data@, i as int),
{
    data[i] as u64 + 0x100 * (data[i + 1] as u64) + 0x1_0000 * (data[i + 2] as u64) + 0x100_0000
        * (data[i + 3] as u64) + 0x1_0000_0000 * (data[i + 4] as u64) + 0x100_0000_0000 * (data[i
        + 5] as u64) + 0x1_0000_0000_0000 * (data[i + 6] as u64) + 0x100_0000_0000_0000 * (data[i
        + 7] as u64)
}

/// Sign-extend an 8-bit branch offset into 64 bits.
pub fn sext8(b: u8) -> (r: u64)
    ensures
        r == spec_sext8(b),
{
    if b < 0x80 {
        b as u64
    } else {
        0xFFFF_FFFF_FFFF_FF00u64 + b as u64
    }
}

/// Sign-extend a 16-bit branch offset into 64 bits.
pub fn sext16(v: u64) -> (r: u64)
    requires
        v < 0x1_0000,
    ensures
        r == spec_sext16(v),
{
    if v < 0x8000 {
        v
    } else {
        0xFFFF_FFFF_FFFF_0000u64 + v
    }
}

/// Sign-extend a 32-bit branch offset into 64 bits.
pub fn sext32(v: u64) -> (r: u64)
    requires
        v < 0x1_0000_0000,
    ensures
        r == spec_sext32(v),
{
    if v < 0x8000_0000 {
        v
    } else {
        0xFFFF_FFFF_0000_0000u64 + v
    }
}

/// The byte at position `n`, shifted into its little-endian place.
pub fn _b(data: &[u8], n: usize) -> (r: u64)
    requires
        n < data@.len(),
        n <= 7,
    ensures
        r == (data@[n as int] as u64) << ((8 * n) as u64),
{
    (data[n] as u64) << ((8 * n) as u64)
}

/// Low nibble of the first byte.
pub fn read_l(data: &[u8]) -> (r: u64)
    requires
        data@.len() >= 1,
    ensures
        r == data@[0] % 16,
{
    let b: u8 = data[0];
    assert((b & 0x0f) == b % 16) by (bit_vector);
    (b & 0x0f) as u64
}

/// High nibble of the first byte.
pub fn read_h(data: &[u8]) -> (r: u64)
    requires
        data@.len() >= 1,
    ensures
        r == data@[0] / 16,
{
    let b: u8 = data[0];
    assert((b >> 4) == b / 16) by (bit_vector);
    (b >> 4) as u64
}

/// Little-endian 16-bit field starting at the first byte.
pub fn read_2(data: &[u8]) -> (r: u16)
    requires
        data@.len() >= 2,
    ensures
        r == data@[0] + 256 * data@[1],
{
    data[0] as u16 + 256 * (data[1] as u16)
}

/// Little-endian 32-bit field starting at the first byte.
pub fn read_4(data: &[u8]) -> (r: u32)
    requires
        data@.len() >= 4,
    ensures
        r == data@[0] + 0x100 * data@[1] + 0x1_0000 * data@[2] + 0x100_0000 * data@[3],
{
    data[0] as u32 + 0x100 * (data[1] as u32) + 0x1_0000 * (data[2] as u32) + 0x100_0000 * (
    data[3] as u32)
}

/// Little-endian 64-bit field starting at the first byte.
pub fn read_8(data: &[u8]) -> (r: u64)
    requires
        data@.len() >= 8,
    ensures
        r == data@[0] + 0x100 * data@[1] + 0x1_0000 * data@[2] + 0x100_0000 * data@[3]
            + 0x1_0000_0000 * data@[4] + 0x100_0000_0000 * data@[5] + 0x1_0000_0000_0000
            * data@[6] + 0x100_0000_0000_0000 * data@[7],
{
    data[0] as u64 + 0x100 * (data[1] as u64) + 0x1_0000 * (data[2] as u64) + 0x100_0000 * (
    data[3] as u64) + 0x1_0000_0000 * (data[4] as u64) + 0x100_0000_0000 * (data[5] as u64)
        + 0x1_0000_0000_0000 * (data[6] as u64) + 0x100_0000_0000_0000 * (data[7] as u64)
}

} // verus!
