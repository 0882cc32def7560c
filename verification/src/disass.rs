//! The instruction decoder: a table-driven decode of one instruction
//! at a byte offset, and a lazy stream of instructions over a
//! method's code buffer.
//!
//! Decoding is a pure function of the bytes.  A decoded [`Inst`] owns
//! its byte window; its length and every operand slot follow from the
//! opcode's format.  Malformed input never panics: a truncated
//! buffer, an unassigned opcode or an unrecognized no-op sub-kind
//! each yield a typed error.

use vstd::prelude::*;
use vstd::slice::slice_to_vec;

use crate::getters::{
    le16_at, le32_at, spec_le16, spec_le32, InstFormat,
};
use crate::opcodes::{
    format_of, mnemonic_of, spec_format_of, spec_mnemonic, CONST4, CONSTCLASS, CONSTSTRING,
    CONSTSTRINGJUMBO, GOTO, GOTO_32, IFEQ, IFLEZ, IGET, IGETSHORT, INVOKEINTERFACE,
    INVOKEINTERFACE_RANGE, INVOKEPOLYMORPHIC, INVOKEPOLYMORPHIC_RANGE, INVOKEVIRTUAL,
    INVOKEVIRTUAL_RANGE, PACKEDSWITCH, RETURNOBJECT, RETURNVOID, SGET, SGETSHORT, SPARSESWITCH,
    THROW,
};

verus! {

/// Why a decode or a slot access failed.
#[derive(Clone, Copy, PartialEq, Eq, Structural, Debug)]
pub enum DecodeError {
    /// The instruction would run past the end of the buffer.
    Truncated,
    /// The opcode is not assigned by the format specification.
    UnknownOpcode,
    /// The second byte of an opcode-0 instruction names no known
    /// payload sub-kind.
    BadNopKind,
    /// The requested operand slot is not defined for the
    /// instruction's format.
    InvalidSlot,
}

/// The length in bytes of the instruction at `off`, or the error
/// that decoding it reports.
///
/// Opcode 0 has four sub-kinds distinguished by the second byte:
/// plain no-op (length 2), packed-switch payload (8 + 4 per entry),
/// sparse-switch payload (4 + 8 per entry) and fill-array-data
/// payload (8 + element width times element count, padded to even
/// length).  Every other opcode has the fixed length of its format.
pub open spec fn spec_decode(buf: Seq<u8>, off: int) -> Result<int, DecodeError> {
    if off + 2 > buf.len() {
        Err(DecodeError::Truncated)
    } else {
        let op = buf[off];
        if op == 0 {
            let sub = buf[off + 1];
            if sub == 0 {
                Ok(2)
            } else if sub == 1 {
                if off + 4 > buf.len() {
                    Err(DecodeError::Truncated)
                } else {
                    let l = 8 + 4 * spec_le16(buf, off + 2);
                    if off + l > buf.len() {
                        Err(DecodeError::Truncated)
                    } else {
                        Ok(l as int)
                    }
                }
            } else if sub == 2 {
                if off + 4 > buf.len() {
                    Err(DecodeError::Truncated)
                } else {
                    let l = 4 + 8 * spec_le16(buf, off + 2);
                    if off + l > buf.len() {
                        Err(DecodeError::Truncated)
                    } else {
                        Ok(l as int)
                    }
                }
            } else if sub == 3 {
                if off + 8 > buf.len() {
                    Err(DecodeError::Truncated)
                } else {
                    let w = spec_le16(buf, off + 2);
                    let n = spec_le32(buf, off + 4);
                    let l0 = 8 + w * n;
                    let l = if l0 % 2 == 1 {
                        l0 + 1
                    } else {
                        l0
                    };
                    if off + l > buf.len() {
                        Err(DecodeError::Truncated)
                    } else {
                        Ok(l as int)
                    }
                }
            } else {
                Err(DecodeError::BadNopKind)
            }
        } else {
            match spec_format_of(op) {
                None => Err(DecodeError::UnknownOpcode),
                Some(f) => {
                    if off + f.spec_length() > buf.len() {
                        Err(DecodeError::Truncated)
                    } else {
                        Ok(f.spec_length())
                    }
                },
            }
        }
    }
}

/// A window is a whole instruction when decoding it at offset 0
/// consumes exactly the window.
pub open spec fn inst_wf(w: Seq<u8>) -> bool {
    spec_decode(w, 0) == Ok::<int, DecodeError>(w.len() as int)
}

/// A successful decode stays within the buffer and consumes at
/// least the two bytes every instruction has.
pub proof fn lemma_decode_ok_bounds(buf: Seq<u8>, off: int, l: int)
    requires
        spec_decode(buf, off) == Ok::<int, DecodeError>(l),
    ensures
        2 <= l,
        off + l <= buf.len(),
{
}

/// An instruction decoded at some offset is equally an instruction
/// of its own window.
proof fn lemma_decode_subrange(buf: Seq<u8>, off: int, l: int)
    requires
        0 <= off,
        spec_decode(buf, off) == Ok::<int, DecodeError>(l),
    ensures
        off + l <= buf.len(),
        inst_wf(buf.subrange(off, off + l)),
{
    let w = buf.subrange(off, off + l);
    assert(w.len() == l);
    assert(w[0] == buf[off]);
    assert(w[1] == buf[off + 1]);
    if buf[off] == 0 {
        let sub = buf[off + 1];
        if sub == 1 || sub == 2 {
            assert(w[2] == buf[off + 2]);
            assert(w[3] == buf[off + 3]);
            assert(spec_le16(w, 2) == spec_le16(buf, off + 2));
        } else if sub == 3 {
            assert(w[2] == buf[off + 2]);
            assert(w[3] == buf[off + 3]);
            assert(w[4] == buf[off + 4]);
            assert(w[5] == buf[off + 5]);
            assert(w[6] == buf[off + 6]);
            assert(w[7] == buf[off + 7]);
            assert(spec_le16(w, 2) == spec_le16(buf, off + 2));
            assert(spec_le32(w, 4) == spec_le32(buf, off + 4));
        }
    }
}

/// Copy of `buffer[offset .. offset + len]`.
fn copy_window(buffer: &[u8], offset: usize, len: usize) -> (v: Vec<u8>)
    requires
        offset + len <= buffer@.len(),
    ensures
        v@ == buffer@.subrange(offset as int, offset + len),
{
    let n = buffer.len();
    let mut v: Vec<u8> = Vec::new();
    let mut i: usize = 0;
    while i < len
        invariant
            i <= len,
            offset + len <= n,
            n == buffer@.len(),
            v@ == buffer@.subrange(offset as int, offset + i),
        decreases len - i,
    {
        v.push(buffer[offset + i]);
        assert(v@ =~= buffer@.subrange(offset as int, offset + i + 1));
        i = i + 1;
    }
    v
}

/// One decoded instruction: an immutable view over a byte window.
///
/// Its view is the window itself; the window always decodes to
/// exactly its own length.
#[derive(Debug)]
pub struct Inst {
    bytes: Vec<u8>,
}

impl View for Inst {
    type V = Seq<u8>;

    closed spec fn view(&self) -> Seq<u8> {
        self.bytes@
    }
}

impl Inst {
    #[verifier::type_invariant]
    spec fn type_wf(self) -> bool {
        inst_wf(self.bytes@)
    }

    /// The format of this instruction's opcode.
    pub open spec fn fmt(self) -> InstFormat
        recommends
            inst_wf(self@),
    {
        spec_format_of(self@[0]).unwrap()
    }

    /// The opcode: the first byte of the window.
    pub fn op(&self) -> (r: usize)
        ensures
            r == self@[0],
    {
        proof {
            use_type_invariant(&*self);
        }
        self.bytes[0] as usize
    }

    /// The instruction's total length in bytes.
    pub fn length(&self) -> (r: usize)
        ensures
            r == self@.len(),
            spec_decode(self@, 0) == Ok::<int, DecodeError>(r as int),
    {
        proof {
            use_type_invariant(&*self);
        }
        self.bytes.len()
    }

    /// Operand slot A, or a typed error where the instruction's
    /// format does not define it.
    pub fn get_a(&self) -> (r: Result<u64, DecodeError>)
        ensures
            r == (if self.fmt().a_defined() {
                Ok::<u64, DecodeError>(self.fmt().spec_a(self@))
            } else {
                Err::<u64, DecodeError>(DecodeError::InvalidSlot)
            }),
    {
        proof {
            use_type_invariant(&*self);
        }
        match format_of(self.bytes[0]) {
            Some(f) => f.a(self.bytes.as_slice()),
            None => Err(DecodeError::InvalidSlot),
        }
    }

    /// Operand slot B, or a typed error where the instruction's
    /// format does not define it.
    pub fn get_b(&self) -> (r: Result<u64, DecodeError>)
        ensures
            r == (if self.fmt().b_defined() {
                Ok::<u64, DecodeError>(self.fmt().spec_b(self@))
            } else {
                Err::<u64, DecodeError>(DecodeError::InvalidSlot)
            }),
    {
        proof {
            use_type_invariant(&*self);
        }
        match format_of(self.bytes[0]) {
            Some(f) => f.b(self.bytes.as_slice()),
            None => Err(DecodeError::InvalidSlot),
        }
    }

    /// Operand slot C, or a typed error where the instruction's
    /// format does not define it.
    pub fn get_c(&self) -> (r: Result<u64, DecodeError>)
        ensures
            r == (if self.fmt().c_defined() {
                Ok::<u64, DecodeError>(self.fmt().spec_c(self@))
            } else {
                Err::<u64, DecodeError>(DecodeError::InvalidSlot)
            }),
    {
        proof {
            use_type_invariant(&*self);
        }
        match format_of(self.bytes[0]) {
            Some(f) => f.c(self.bytes.as_slice()),
            None => Err(DecodeError::InvalidSlot),
        }
    }

    /// Operand slot D, or a typed error where the instruction's
    /// format does not define it.
    pub fn get_d(&self) -> (r: Result<u64, DecodeError>)
        ensures
            r == (if self.fmt().defg_defined() {
                Ok::<u64, DecodeError>(self.fmt().spec_d(self@))
            } else {
                Err::<u64, DecodeError>(DecodeError::InvalidSlot)
            }),
    {
        proof {
            use_type_invariant(&*self);
        }
        match format_of(self.bytes[0]) {
            Some(f) => f.d(self.bytes.as_slice()),
            None => Err(DecodeError::InvalidSlot),
        }
    }

    /// Operand slot E, or a typed error where the instruction's
    /// format does not define it.
    pub fn get_e(&self) -> (r: Result<u64, DecodeError>)
        ensures
            r == (if self.fmt().defg_defined() {
                Ok::<u64, DecodeError>(self.fmt().spec_e(self@))
            } else {
                Err::<u64, DecodeError>(DecodeError::InvalidSlot)
            }),
    {
        proof {
            use_type_invariant(&*self);
        }
        match format_of(self.bytes[0]) {
            Some(f) => f.e(self.bytes.as_slice()),
            None => Err(DecodeError::InvalidSlot),
        }
    }

    /// Operand slot F, or a typed error where the instruction's
    /// format does not define it.
    pub fn get_f(&self) -> (r: Result<u64, DecodeError>)
        ensures
            r == (if self.fmt().defg_defined() {
                Ok::<u64, DecodeError>(self.fmt().spec_f(self@))
            } else {
                Err::<u64, DecodeError>(DecodeError::InvalidSlot)
            }),
    {
        proof {
            use_type_invariant(&*self);
        }
        match format_of(self.bytes[0]) {
            Some(f) => f.f(self.bytes.as_slice()),
            None => Err(DecodeError::InvalidSlot),
        }
    }

    /// Operand slot G, or a typed error where the instruction's
    /// format does not define it.
    pub fn get_g(&self) -> (r: Result<u64, DecodeError>)
        ensures
            r == (if self.fmt().defg_defined() {
                Ok::<u64, DecodeError>(self.fmt().spec_g(self@))
            } else {
                Err::<u64, DecodeError>(DecodeError::InvalidSlot)
            }),
    {
        proof {
            use_type_invariant(&*self);
        }
        match format_of(self.bytes[0]) {
            Some(f) => f.g(self.bytes.as_slice()),
            None => Err(DecodeError::InvalidSlot),
        }
    }

    /// Operand slot H, or a typed error where the instruction's
    /// format does not define it.
    pub fn get_h(&self) -> (r: Result<u64, DecodeError>)
        ensures
            r == (if self.fmt().h_defined() {
                Ok::<u64, DecodeError>(self.fmt().spec_h(self@))
            } else {
                Err::<u64, DecodeError>(DecodeError::InvalidSlot)
            }),
    {
        proof {
            use_type_invariant(&*self);
        }
        match format_of(self.bytes[0]) {
            Some(f) => f.h(self.bytes.as_slice()),
            None => Err(DecodeError::InvalidSlot),
        }
    }

    /// Whether the opcode loads a constant.
    pub fn is_const(&self) -> (r: bool)
        ensures
            r == (CONST4 <= self@[0] && self@[0] <= CONSTCLASS),
    {
        let op = self.op();
        CONST4 <= op && op <= CONSTCLASS
    }

    /// Whether the opcode loads a string constant.
    pub fn is_const_string(&self) -> (r: bool)
        ensures
            r == (self@[0] == CONSTSTRING || self@[0] == CONSTSTRINGJUMBO),
    {
        let op = self.op();
        op == CONSTSTRING || op == CONSTSTRINGJUMBO
    }

    /// Whether the opcode invokes a method: the two contiguous
    /// invoke ranges plus the two polymorphic-invoke opcodes.
    pub fn is_invoke(&self) -> (r: bool)
        ensures
            r == spec_is_invoke(self@[0]),
    {
        let op = self.op();
        if INVOKEVIRTUAL <= op && op <= INVOKEINTERFACE {
            return true;
        }
        if INVOKEVIRTUAL_RANGE <= op && op <= INVOKEINTERFACE_RANGE {
            return true;
        }
        if op == INVOKEPOLYMORPHIC || op == INVOKEPOLYMORPHIC_RANGE {
            return true;
        }
        false
    }

    /// Whether the opcode reads an instance or a static field.
    pub fn is_read_field(&self) -> (r: bool)
        ensures
            r == ((IGET <= self@[0] && self@[0] <= IGETSHORT) || (SGET <= self@[0] && self@[0]
                <= SGETSHORT)),
    {
        let op = self.op();
        if IGET <= op && op <= IGETSHORT {
            return true;
        }
        if SGET <= op && op <= SGETSHORT {
            return true;
        }
        false
    }

    /// Whether the opcode returns from the method.
    pub fn is_return(&self) -> (r: bool)
        ensures
            r == (RETURNVOID <= self@[0] && self@[0] <= RETURNOBJECT),
    {
        let op = self.op();
        RETURNVOID <= op && op <= RETURNOBJECT
    }

    /// Whether the opcode throws.
    pub fn is_throw(&self) -> (r: bool)
        ensures
            r == (self@[0] == THROW),
    {
        self.op() == THROW
    }

    /// Whether the opcode is an unconditional branch.
    pub fn is_goto(&self) -> (r: bool)
        ensures
            r == (GOTO <= self@[0] && self@[0] <= GOTO_32),
    {
        let op = self.op();
        GOTO <= op && op <= GOTO_32
    }

    /// Whether the opcode is a conditional branch.
    pub fn is_branch(&self) -> (r: bool)
        ensures
            r == (IFEQ <= self@[0] && self@[0] <= IFLEZ),
    {
        let op = self.op();
        IFEQ <= op && op <= IFLEZ
    }

    /// Whether the opcode is a switch dispatch.
    pub fn is_switch(&self) -> (r: bool)
        ensures
            r == (self@[0] == PACKEDSWITCH || self@[0] == SPARSESWITCH),
    {
        let op = self.op();
        op == PACKEDSWITCH || op == SPARSESWITCH
    }

    /// The string-table index of a string-constant instruction:
    /// operand slot B.
    pub fn string_idx(&self) -> (r: Result<u64, DecodeError>)
        ensures
            r == (if self.fmt().b_defined() {
                Ok::<u64, DecodeError>(self.fmt().spec_b(self@))
            } else {
                Err::<u64, DecodeError>(DecodeError::InvalidSlot)
            }),
    {
        self.get_b()
    }

    /// The method-table index of an invoke instruction: operand
    /// slot B.
    pub fn invoke_target(&self) -> (r: Result<u64, DecodeError>)
        ensures
            r == (if self.fmt().b_defined() {
                Ok::<u64, DecodeError>(self.fmt().spec_b(self@))
            } else {
                Err::<u64, DecodeError>(DecodeError::InvalidSlot)
            }),
    {
        self.get_b()
    }

    /// The field-table index of a field access: operand slot C for
    /// the instance-field opcodes, operand slot B from the first
    /// static-field opcode on.
    pub fn field(&self) -> (r: Result<u64, DecodeError>)
        ensures
            self@[0] < SGET ==> r == (if self.fmt().c_defined() {
                Ok::<u64, DecodeError>(self.fmt().spec_c(self@))
            } else {
                Err::<u64, DecodeError>(DecodeError::InvalidSlot)
            }),
            self@[0] >= SGET ==> r == (if self.fmt().b_defined() {
                Ok::<u64, DecodeError>(self.fmt().spec_b(self@))
            } else {
                Err::<u64, DecodeError>(DecodeError::InvalidSlot)
            }),
    {
        if self.op() < SGET {
            self.get_c()
        } else {
            self.get_b()
        }
    }

    /// The opcode's mnemonic.
    pub fn mnemonic(&self) -> (r: &'static str)
        ensures
            r@ == spec_mnemonic(self@[0]),
    {
        proof {
            use_type_invariant(&*self);
        }
        mnemonic_of(self.bytes[0])
    }
}

/// Whether an opcode invokes a method.
pub open spec fn spec_is_invoke(op: u8) -> bool {
    (INVOKEVIRTUAL <= op && op <= INVOKEINTERFACE) || (INVOKEVIRTUAL_RANGE <= op && op
        <= INVOKEINTERFACE_RANGE) || op == INVOKEPOLYMORPHIC || op == INVOKEPOLYMORPHIC_RANGE
}

/// Decode the instruction that starts at `buffer[offset]`.
///
/// The bound against the buffer's length is checked before any
/// operand byte is read, so the call is total: truncated input of
/// any shape yields `DecodeError::Truncated`, never a panic.
pub fn decode(buffer: &[u8], offset: usize) -> (r: Result<Inst, DecodeError>)
    ensures
        match spec_decode(buffer@, offset as int) {
            Ok(l) => r.is_ok() && r.unwrap()@ == buffer@.subrange(offset as int, offset + l),
            Err(e) => r == Err::<Inst, DecodeError>(e),
        },
{
    let n = buffer.len();
    if offset >= n || n - offset < 2 {
        return Err(DecodeError::Truncated);
    }
    let op = buffer[offset];
    if op == 0 {
        let sub = buffer[offset + 1];
        if sub == 0 {
            Ok(mk_inst(buffer, offset, 2))
        } else if sub == 1 {
            if n - offset < 4 {
                return Err(DecodeError::Truncated);
            }
            let size = le16_at(buffer, offset + 2);
            let l: u64 = 8 + 4 * size;
            if ((n - offset) as u64) < l {
                return Err(DecodeError::Truncated);
            }
            Ok(mk_inst(buffer, offset, l as usize))
        } else if sub == 2 {
            if n - offset < 4 {
                return Err(DecodeError::Truncated);
            }
            let size = le16_at(buffer, offset + 2);
            let l: u64 = 4 + 8 * size;
            if ((n - offset) as u64) < l {
                return Err(DecodeError::Truncated);
            }
            Ok(mk_inst(buffer, offset, l as usize))
        } else if sub == 3 {
            if n - offset < 8 {
                return Err(DecodeError::Truncated);
            }
            let w = le16_at(buffer, offset + 2);
            let c = le32_at(buffer, offset + 4);
            assert(w * c <= 0xffff * 0xffff_ffffu64) by (nonlinear_arith)
                requires
                    w <= 0xffff,
                    c <= 0xffff_ffff,
            ;
            let mut l: u64 = 8 + w * c;
            if l % 2 == 1 {
                l = l + 1;
            }
            if ((n - offset) as u64) < l {
                return Err(DecodeError::Truncated);
            }
            Ok(mk_inst(buffer, offset, l as usize))
        } else {
            Err(DecodeError::BadNopKind)
        }
    } else {
        match format_of(op) {
            None => Err(DecodeError::UnknownOpcode),
            Some(f) => {
                let l = f.length();
                if n - offset < l {
                    Err(DecodeError::Truncated)
                } else {
                    Ok(mk_inst(buffer, offset, l))
                }
            },
        }
    }
}

/// A lazy, finite stream of instructions over one method's code
/// buffer.
///
/// Each call of [`InstIterator::next`] decodes the instruction at
/// the current offset and advances by its length.  On a decode error
/// the stream yields the error once and then terminates.  The stream
/// is restartable only by constructing it again.
pub struct InstIterator {
    bytes: Vec<u8>,
    index: usize,
    length: usize,
}

impl InstIterator {
    /// The code buffer the stream walks.
    pub closed spec fn buf(&self) -> Seq<u8> {
        self.bytes@
    }

    /// The current byte offset.
    pub closed spec fn pos(&self) -> int {
        self.index as int
    }

    /// The byte length up to which instructions are decoded.
    pub closed spec fn limit(&self) -> int {
        self.length as int
    }

    /// A fresh stream over `bytes`, stopping at offset `length`.
    pub fn new(bytes: &[u8], length: usize) -> (it: InstIterator)
        ensures
            it.buf() == bytes@,
            it.pos() == 0,
            it.limit() == length,
    {
        InstIterator { bytes: slice_to_vec(bytes), index: 0, length }
    }

    /// The next instruction, a decode error once, or `None` at the
    /// end of the stream.
    pub fn next(&mut self) -> (r: Option<Result<Inst, DecodeError>>)
        ensures
            final(self).buf() == old(self).buf(),
            final(self).limit() == old(self).limit(),
            match r {
                None => old(self).pos() >= old(self).limit() && final(self).pos() == old(
                    self,
                ).pos(),
                Some(Ok(i)) => {
                    &&& old(self).pos() < old(self).limit()
                    &&& spec_decode(old(self).buf(), old(self).pos()) == Ok::<
                        int,
                        DecodeError,
                    >(i@.len() as int)
                    &&& i@ == old(self).buf().subrange(
                        old(self).pos(),
                        old(self).pos() + i@.len(),
                    )
                    &&& final(self).pos() == old(self).pos() + i@.len()
                    &&& final(self).pos() > old(self).pos()
                },
                Some(Err(e)) => {
                    &&& old(self).pos() < old(self).limit()
                    &&& spec_decode(old(self).buf(), old(self).pos()) == Err::<int, DecodeError>(e)
                    &&& final(self).pos() == final(self).limit()
                },
            },
    {
        if self.index >= self.length {
            return None;
        }
        let n = self.bytes.len();
        match decode(self.bytes.as_slice(), self.index) {
            Ok(i) => {
                proof {
                    use_type_invariant(&i);
                    lemma_decode_ok_bounds(
                        self.bytes@,
                        self.index as int,
                        spec_decode(self.bytes@, self.index as int).unwrap(),
                    );
                }
                let l = i.length();
                assert(self.index + l <= n);
                self.index = self.index + l;
                Some(Ok(i))
            },
            Err(e) => {
                self.index = self.length;
                Some(Err(e))
            },
        }
    }
}

/// The bytes of a code buffer given as 16-bit code units, each unit
/// little-endian.
pub open spec fn spec_units_to_bytes(units: Seq<u16>) -> Seq<u8>
    decreases units.len(),
{
    if units.len() == 0 {
        Seq::empty()
    } else {
        spec_units_to_bytes(units.drop_last()) + seq![
            (units.last() % 0x100) as u8,
            (units.last() / 0x100) as u8,
        ]
    }
}

/// Reinterpret a sequence of 16-bit code units as the raw byte
/// buffer of twice as many bytes.
pub fn units_to_bytes(units: &[u16]) -> (v: Vec<u8>)
    requires
        2 * units@.len() <= usize::MAX,
    ensures
        v@ == spec_units_to_bytes(units@),
        v@.len() == 2 * units@.len(),
{
    proof {
        lemma_units_to_bytes_len(units@);
    }
    let n = units.len();
    let mut v: Vec<u8> = Vec::new();
    let mut i: usize = 0;
    while i < n
        invariant
            i <= n,
            n == units@.len(),
            2 * n <= usize::MAX,
            v@ == spec_units_to_bytes(units@.take(i as int)),
            v@.len() == 2 * i,
        decreases n - i,
    {
        proof {
            lemma_units_to_bytes_len(units@.take(i as int));
        }
        let u = units[i];
        v.push((u % 0x100) as u8);
        v.push((u / 0x100) as u8);
        proof {
            assert(units@.take(i + 1).drop_last() =~= units@.take(i as int));
            assert(units@.take(i + 1).last() == units@[i as int]);
            assert(v@ =~= spec_units_to_bytes(units@.take(i + 1)));
        }
        i = i + 1;
    }
    proof {
        assert(units@.take(n as int) =~= units@);
    }
    v
}

/// The byte buffer is twice as long as the unit sequence.
proof fn lemma_units_to_bytes_len(units: Seq<u16>)
    ensures
        spec_units_to_bytes(units).len() == 2 * units.len(),
    decreases units.len(),
{
    if units.len() > 0 {
        lemma_units_to_bytes_len(units.drop_last());
    }
}

/// A stream of instructions over a method's code, given as the
/// 16-bit code units the bytecode container stores.
pub fn disassemble(units: &[u16]) -> (it: InstIterator)
    requires
        2 * units@.len() <= usize::MAX,
    ensures
        it.buf() == spec_units_to_bytes(units@),
        it.buf().len() == 2 * units@.len(),
        it.pos() == 0,
        it.limit() == 2 * units@.len(),
{
    let bytes = units_to_bytes(units);
    let length = bytes.len();
    InstIterator { bytes, index: 0, length }
}

/// Build an instruction from its already-validated window.
fn mk_inst(buffer: &[u8], offset: usize, len: usize) -> (r: Inst)
    requires
        spec_decode(buffer@, offset as int) == Ok::<int, DecodeError>(len as int),
        offset + len <= buffer@.len(),
    ensures
        r@ == buffer@.subrange(offset as int, offset + len),
{
    proof {
        lemma_decode_subrange(buffer@, offset as int, len as int);
    }
    let bytes = copy_window(buffer, offset, len);
    Inst { bytes }
}

} // verus!
