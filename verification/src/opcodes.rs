//! The 256-entry opcode table of the bytecode format.
//!
//! Every opcode is assigned an instruction format (which fixes its
//! length and how its operand slots are packed) and a mnemonic.
//! Opcodes that the format specification leaves unassigned have no
//! format; decoding them fails with a typed error.

use vstd::prelude::*;

use crate::getters::InstFormat;

verus! {

// Opcode range boundaries used by the instruction classification
// predicates.  The ranges are part of the bytecode format
// specification: for example, all invoke opcodes form the two
// contiguous ranges 0x6e..=0x72 and 0x74..=0x78 plus the two
// polymorphic-invoke opcodes 0xfa and 0xfb.
pub const CONST4: usize = 0x12;
pub const CONSTSTRING: usize = 0x1a;
pub const CONSTSTRINGJUMBO: usize = 0x1b;
pub const CONSTCLASS: usize = 0x1c;
pub const THROW: usize = 0x27;
pub const GOTO: usize = 0x28;
pub const GOTO_32: usize = 0x2a;
pub const PACKEDSWITCH: usize = 0x2b;
pub const SPARSESWITCH: usize = 0x2c;
pub const IFEQ: usize = 0x32;
pub const IFLEZ: usize = 0x3d;
pub const IGET: usize = 0x52;
pub const IGETSHORT: usize = 0x58;
pub const SGET: usize = 0x60;
pub const SGETSHORT: usize = 0x66;
pub const INVOKEVIRTUAL: usize = 0x6e;
pub const INVOKEINTERFACE: usize = 0x72;
pub const INVOKEVIRTUAL_RANGE: usize = 0x74;
pub const INVOKEINTERFACE_RANGE: usize = 0x78;
pub const INVOKEPOLYMORPHIC: usize = 0xfa;
pub const INVOKEPOLYMORPHIC_RANGE: usize = 0xfb;
pub const RETURNVOID: usize = 0x0e;
pub const RETURNOBJECT: usize = 0x11;

/// The format assigned to each opcode, or `None` for the opcodes the
/// format specification leaves unassigned.
pub open spec fn spec_format_of(op: u8) -> Option<InstFormat> {
    if op == 0x00 || op == 0x0e {
        Some(InstFormat::Op00)
    } else if op == 0x01 || op == 0x04 || op == 0x07 || op == 0x12 || op == 0x21 || (0x7b <= op
        && op <= 0x8f) || (0xb0 <= op && op <= 0xcf) {
        Some(InstFormat::OpBA)
    } else if op == 0x02 || op == 0x05 || op == 0x08 {
        Some(InstFormat::OpAABBBB)
    } else if op == 0x03 || op == 0x06 || op == 0x09 {
        Some(InstFormat::Op00AAAABBBB)
    } else if (0x0a <= op && op <= 0x0d) || (0x0f <= op && op <= 0x11) || op == 0x1d || op == 0x1e
        || op == 0x27 {
        Some(InstFormat::OpAA)
    } else if op == 0x13 || op == 0x15 || op == 0x16 || op == 0x19 || op == 0x1a || op == 0x1c
        || op == 0x1f || op == 0x22 || (0x60 <= op && op <= 0x6d) || op == 0xfe || op == 0xff {
        Some(InstFormat::OpAABBBB)
    } else if op == 0x14 || op == 0x17 || op == 0x1b || op == 0x26 || op == 0x2b || op == 0x2c {
        Some(InstFormat::OpAABBBBBBBB)
    } else if op == 0x18 {
        Some(InstFormat::OpAABBBBBBBBBBBBBBBB)
    } else if op == 0x20 || op == 0x23 || (0x52 <= op && op <= 0x5f) {
        Some(InstFormat::OpBACCCC)
    } else if op == 0x24 || (0x6e <= op && op <= 0x72) || op == 0xfc {
        Some(InstFormat::OpAGBBBBDCFE)
    } else if op == 0x25 || (0x74 <= op && op <= 0x78) || op == 0xfd {
        Some(InstFormat::OpAABBBBCCCC)
    } else if op == 0x28 {
        Some(InstFormat::Op10t)
    } else if op == 0x29 {
        Some(InstFormat::Op20t)
    } else if op == 0x2a {
        Some(InstFormat::Op30t)
    } else if (0x2d <= op && op <= 0x31) || (0x44 <= op && op <= 0x51) || (0x90 <= op && op
        <= 0xaf) || (0xd8 <= op && op <= 0xe2) {
        Some(InstFormat::OpAACCBB)
    } else if 0x32 <= op && op <= 0x37 {
        Some(InstFormat::Op22t)
    } else if 0x38 <= op && op <= 0x3d {
        Some(InstFormat::Op21t)
    } else if 0xd0 <= op && op <= 0xd7 {
        Some(InstFormat::OpBACCCC)
    } else if op == 0xfa {
        Some(InstFormat::OpAGBBBBDCFEHHHH)
    } else if op == 0xfb {
        Some(InstFormat::OpAABBBBCCCCHHHH)
    } else {
        None
    }
}

/// Table lookup of an opcode's format.
pub fn format_of(op: u8) -> (r: Option<InstFormat>)
    ensures
        r == spec_format_of(op),
{
    if op == 0x00 || op == 0x0e {
        Some(InstFormat::Op00)
    } else if op == 0x01 || op == 0x04 || op == 0x07 || op == 0x12 || op == 0x21 || (0x7b <= op
        && op <= 0x8f) || (0xb0 <= op && op <= 0xcf) {
        Some(InstFormat::OpBA)
    } else if op == 0x02 || op == 0x05 || op == 0x08 {
        Some(InstFormat::OpAABBBB)
    } else if op == 0x03 || op == 0x06 || op == 0x09 {
        Some(InstFormat::Op00AAAABBBB)
    } else if (0x0a <= op && op <= 0x0d) || (0x0f <= op && op <= 0x11) || op == 0x1d || op == 0x1e
        || op == 0x27 {
        Some(InstFormat::OpAA)
    } else if op == 0x13 || op == 0x15 || op == 0x16 || op == 0x19 || op == 0x1a || op == 0x1c
        || op == 0x1f || op == 0x22 || (0x60 <= op && op <= 0x6d) || op == 0xfe || op == 0xff {
        Some(InstFormat::OpAABBBB)
    } else if op == 0x14 || op == 0x17 || op == 0x1b || op == 0x26 || op == 0x2b || op == 0x2c {
        Some(InstFormat::OpAABBBBBBBB)
    } else if op == 0x18 {
        Some(InstFormat::OpAABBBBBBBBBBBBBBBB)
    } else if op == 0x20 || op == 0x23 || (0x52 <= op && op <= 0x5f) {
        Some(InstFormat::OpBACCCC)
    } else if op == 0x24 || (0x6e <= op && op <= 0x72) || op == 0xfc {
        Some(InstFormat::OpAGBBBBDCFE)
    } else if op == 0x25 || (0x74 <= op && op <= 0x78) || op == 0xfd {
        Some(InstFormat::OpAABBBBCCCC)
    } else if op == 0x28 {
        Some(InstFormat::Op10t)
    } else if op == 0x29 {
        Some(InstFormat::Op20t)
    } else if op == 0x2a {
        Some(InstFormat::Op30t)
    } else if (0x2d <= op && op <= 0x31) || (0x44 <= op && op <= 0x51) || (0x90 <= op && op
        <= 0xaf) || (0xd8 <= op && op <= 0xe2) {
        Some(InstFormat::OpAACCBB)
    } else if 0x32 <= op && op <= 0x37 {
        Some(InstFormat::Op22t)
    } else if 0x38 <= op && op <= 0x3d {
        Some(InstFormat::Op21t)
    } else if 0xd0 <= op && op <= 0xd7 {
        Some(InstFormat::OpBACCCC)
    } else if op == 0xfa {
        Some(InstFormat::OpAGBBBBDCFEHHHH)
    } else if op == 0xfb {
        Some(InstFormat::OpAABBBBCCCCHHHH)
    } else {
        None
    }
}

/// The mnemonic assigned to each opcode by the format specification;
/// unassigned opcodes read "unused".
pub open spec fn spec_mnemonic(op: u8) -> Seq<char> {
    match op {
        0x00u8 => "nop"@,
        0x01u8 => "move"@,
        0x02u8 => "move/from16"@,
        0x03u8 => "move/16"@,
        0x04u8 => "move-wide"@,
        0x05u8 => "move-wide/from16"@,
        0x06u8 => "move-wide/16"@,
        0x07u8 => "move-object"@,
        0x08u8 => "move-object/from16"@,
        0x09u8 => "move-object/16"@,
        0x0au8 => "move-result"@,
        0x0bu8 => "move-result-wide"@,
        0x0cu8 => "move-result-object"@,
        0x0du8 => "move-exception"@,
        0x0eu8 => "return-void"@,
        0x0fu8 => "return"@,
        0x10u8 => "return-wide"@,
        0x11u8 => "return-object"@,
        0x12u8 => "const/4"@,
        0x13u8 => "const/16"@,
        0x14u8 => "const"@,
        0x15u8 => "const/high16"@,
        0x16u8 => "const-wide/16"@,
        0x17u8 => "const-wide/32"@,
        0x18u8 => "const-wide"@,
        0x19u8 => "const-wide/high16"@,
        0x1au8 => "const-string"@,
        0x1bu8 => "const-string/jumbo"@,
        0x1cu8 => "const-class"@,
        0x1du8 => "monitor-enter"@,
        0x1eu8 => "monitor-exit"@,
        0x1fu8 => "check-cast"@,
        0x20u8 => "instance-of"@,
        0x21u8 => "array-length"@,
        0x22u8 => "new-instance"@,
        0x23u8 => "new-array"@,
        0x24u8 => "filled-new-array"@,
        0x25u8 => "filled-new-array/range"@,
        0x26u8 => "fill-array-data"@,
        0x27u8 => "throw"@,
        0x28u8 => "goto"@,
        0x29u8 => "goto/16"@,
        0x2au8 => "goto/32"@,
        0x2bu8 => "packed-switch"@,
        0x2cu8 => "sparse-switch"@,
        0x2du8 => "cmpl-float"@,
        0x2eu8 => "cmpg-float"@,
        0x2fu8 => "cmpl-double"@,
        0x30u8 => "cmpg-double"@,
        0x31u8 => "cmp-long"@,
        0x32u8 => "if-eq"@,
        0x33u8 => "if-ne"@,
        0x34u8 => "if-lt"@,
        0x35u8 => "if-ge"@,
        0x36u8 => "if-gt"@,
        0x37u8 => "if-le"@,
        0x38u8 => "if-eqz"@,
        0x39u8 => "if-nez"@,
        0x3au8 => "if-ltz"@,
        0x3bu8 => "if-gez"@,
        0x3cu8 => "if-gtz"@,
        0x3du8 => "if-lez"@,
        0x3eu8 => "unused"@,
        0x3fu8 => "unused"@,
        0x40u8 => "unused"@,
        0x41u8 => "unused"@,
        0x42u8 => "unused"@,
        0x43u8 => "unused"@,
        0x44u8 => "aget"@,
        0x45u8 => "aget-wide"@,
        0x46u8 => "aget-object"@,
        0x47u8 => "aget-boolean"@,
        0x48u8 => "aget-byte"@,
        0x49u8 => "aget-char"@,
        0x4au8 => "aget-short"@,
        0x4bu8 => "aput"@,
        0x4cu8 => "aput-wide"@,
        0x4du8 => "aput-object"@,
        0x4eu8 => "aput-boolean"@,
        0x4fu8 => "aput-byte"@,
        0x50u8 => "aput-char"@,
        0x51u8 => "aput-short"@,
        0x52u8 => "iget"@,
        0x53u8 => "iget-wide"@,
        0x54u8 => "iget-object"@,
        0x55u8 => "iget-boolean"@,
        0x56u8 => "iget-byte"@,
        0x57u8 => "iget-char"@,
        0x58u8 => "iget-short"@,
        0x59u8 => "iput"@,
        0x5au8 => "iput-wide"@,
        0x5bu8 => "iput-object"@,
        0x5cu8 => "iput-boolean"@,
        0x5du8 => "iput-byte"@,
        0x5eu8 => "iput-char"@,
        0x5fu8 => "iput-short"@,
        0x60u8 => "sget"@,
        0x61u8 => "sget-wide"@,
        0x62u8 => "sget-object"@,
        0x63u8 => "sget-boolean"@,
        0x64u8 => "sget-byte"@,
        0x65u8 => "sget-char"@,
        0x66u8 => "sget-short"@,
        0x67u8 => "sput"@,
        0x68u8 => "sput-wide"@,
        0x69u8 => "sput-object"@,
        0x6au8 => "sput-boolean"@,
        0x6bu8 => "sput-byte"@,
        0x6cu8 => "sput-char"@,
        0x6du8 => "sput-short"@,
        0x6eu8 => "invoke-virtual"@,
        0x6fu8 => "invoke-super"@,
        0x70u8 => "invoke-direct"@,
        0x71u8 => "invoke-static"@,
        0x72u8 => "invoke-interface"@,
        0x73u8 => "unused"@,
        0x74u8 => "invoke-virtual/range"@,
        0x75u8 => "invoke-super/range"@,
        0x76u8 => "invoke-direct/range"@,
        0x77u8 => "invoke-static/range"@,
        0x78u8 => "invoke-interface/range"@,
        0x79u8 => "unused"@,
        0x7au8 => "unused"@,
        0x7bu8 => "neg-int"@,
        0x7cu8 => "not-int"@,
        0x7du8 => "neg-long"@,
        0x7eu8 => "not-long"@,
        0x7fu8 => "neg-float"@,
        0x80u8 => "neg-double"@,
        0x81u8 => "int-to-long"@,
        0x82u8 => "int-to-float"@,
        0x83u8 => "int-to-double"@,
        0x84u8 => "long-to-int"@,
        0x85u8 => "long-to-float"@,
        0x86u8 => "long-to-double"@,
        0x87u8 => "float-to-int"@,
        0x88u8 => "float-to-long"@,
        0x89u8 => "float-to-double"@,
        0x8au8 => "double-to-int"@,
        0x8bu8 => "double-to-long"@,
        0x8cu8 => "double-to-float"@,
        0x8du8 => "int-to-byte"@,
        0x8eu8 => "int-to-char"@,
        0x8fu8 => "int-to-short"@,
        0x90u8 => "add-int"@,
        0x91u8 => "sub-int"@,
        0x92u8 => "mul-int"@,
        0x93u8 => "div-int"@,
        0x94u8 => "rem-int"@,
        0x95u8 => "and-int"@,
        0x96u8 => "or-int"@,
        0x97u8 => "xor-int"@,
        0x98u8 => "shl-int"@,
        0x99u8 => "shr-int"@,
        0x9au8 => "ushr-int"@,
        0x9bu8 => "add-long"@,
        0x9cu8 => "sub-long"@,
        0x9du8 => "mul-long"@,
        0x9eu8 => "div-long"@,
        0x9fu8 => "rem-long"@,
        0xa0u8 => "and-long"@,
        0xa1u8 => "or-long"@,
        0xa2u8 => "xor-long"@,
        0xa3u8 => "shl-long"@,
        0xa4u8 => "shr-long"@,
        0xa5u8 => "ushr-long"@,
        0xa6u8 => "add-float"@,
        0xa7u8 => "sub-float"@,
        0xa8u8 => "mul-float"@,
        0xa9u8 => "div-float"@,
        0xaau8 => "rem-float"@,
        0xabu8 => "add-double"@,
        0xacu8 => "sub-double"@,
        0xadu8 => "mul-double"@,
        0xaeu8 => "div-double"@,
        0xafu8 => "rem-double"@,
        0xb0u8 => "add-int/2addr"@,
        0xb1u8 => "sub-int/2addr"@,
        0xb2u8 => "mul-int/2addr"@,
        0xb3u8 => "div-int/2addr"@,
        0xb4u8 => "rem-int/2addr"@,
        0xb5u8 => "and-int/2addr"@,
        0xb6u8 => "or-int/2addr"@,
        0xb7u8 => "xor-int/2addr"@,
        0xb8u8 => "shl-int/2addr"@,
        0xb9u8 => "shr-int/2addr"@,
        0xbau8 => "ushr-int/2addr"@,
        0xbbu8 => "add-long/2addr"@,
        0xbcu8 => "sub-long/2addr"@,
        0xbdu8 => "mul-long/2addr"@,
        0xbeu8 => "div-long/2addr"@,
        0xbfu8 => "rem-long/2addr"@,
        0xc0u8 => "and-long/2addr"@,
        0xc1u8 => "or-long/2addr"@,
        0xc2u8 => "xor-long/2addr"@,
        0xc3u8 => "shl-long/2addr"@,
        0xc4u8 => "shr-long/2addr"@,
        0xc5u8 => "ushr-long/2addr"@,
        0xc6u8 => "add-float/2addr"@,
        0xc7u8 => "sub-float/2addr"@,
        0xc8u8 => "mul-float/2addr"@,
        0xc9u8 => "div-float/2addr"@,
        0xcau8 => "rem-float/2addr"@,
        0xcbu8 => "add-double/2addr"@,
        0xccu8 => "sub-double/2addr"@,
        0xcdu8 => "mul-double/2addr"@,
        0xceu8 => "div-double/2addr"@,
        0xcfu8 => "rem-double/2addr"@,
        0xd0u8 => "add-int/lit16"@,
        0xd1u8 => "rsub-int"@,
        0xd2u8 => "mul-int/lit16"@,
        0xd3u8 => "div-int/lit16"@,
        0xd4u8 => "rem-int/lit16"@,
        0xd5u8 => "and-int/lit16"@,
        0xd6u8 => "or-int/lit16"@,
        0xd7u8 => "xor-int/lit16"@,
        0xd8u8 => "add-int/lit8"@,
        0xd9u8 => "rsub-int/lit8"@,
        0xdau8 => "mul-int/lit8"@,
        0xdbu8 => "div-int/lit8"@,
        0xdcu8 => "rem-int/lit8"@,
        0xddu8 => "and-int/lit8"@,
        0xdeu8 => "or-int/lit8"@,
        0xdfu8 => "xor-int/lit8"@,
        0xe0u8 => "shl-int/lit8"@,
        0xe1u8 => "shr-int/lit8"@,
        0xe2u8 => "ushr-int/lit8"@,
        0xe3u8 => "unused"@,
        0xe4u8 => "unused"@,
        0xe5u8 => "unused"@,
        0xe6u8 => "unused"@,
        0xe7u8 => "unused"@,
        0xe8u8 => "unused"@,
        0xe9u8 => "unused"@,
        0xeau8 => "unused"@,
        0xebu8 => "unused"@,
        0xecu8 => "unused"@,
        0xedu8 => "unused"@,
        0xeeu8 => "unused"@,
        0xefu8 => "unused"@,
        0xf0u8 => "unused"@,
        0xf1u8 => "unused"@,
        0xf2u8 => "unused"@,
        0xf3u8 => "unused"@,
        0xf4u8 => "unused"@,
        0xf5u8 => "unused"@,
        0xf6u8 => "unused"@,
        0xf7u8 => "unused"@,
        0xf8u8 => "unused"@,
        0xf9u8 => "unused"@,
        0xfau8 => "invoke-polymorphic"@,
        0xfbu8 => "invoke-polymorphic/range"@,
        0xfcu8 => "invoke-custom"@,
        0xfdu8 => "invoke-custom/range"@,
        0xfeu8 => "const-method-handle"@,
        0xffu8 => "const-method-type"@,
    }
}

/// Table lookup of an opcode's mnemonic.
pub fn mnemonic_of(op: u8) -> (r: &'static str)
    ensures
        r@ == spec_mnemonic(op),
{
    match op {
        0x00 => "nop",
        0x01 => "move",
        0x02 => "move/from16",
        0x03 => "move/16",
        0x04 => "move-wide",
        0x05 => "move-wide/from16",
        0x06 => "move-wide/16",
        0x07 => "move-object",
        0x08 => "move-object/from16",
        0x09 => "move-object/16",
        0x0a => "move-result",
        0x0b => "move-result-wide",
        0x0c => "move-result-object",
        0x0d => "move-exception",
        0x0e => "return-void",
        0x0f => "return",
        0x10 => "return-wide",
        0x11 => "return-object",
        0x12 => "const/4",
        0x13 => "const/16",
        0x14 => "const",
        0x15 => "const/high16",
        0x16 => "const-wide/16",
        0x17 => "const-wide/32",
        0x18 => "const-wide",
        0x19 => "const-wide/high16",
        0x1a => "const-string",
        0x1b => "const-string/jumbo",
        0x1c => "const-class",
        0x1d => "monitor-enter",
        0x1e => "monitor-exit",
        0x1f => "check-cast",
        0x20 => "instance-of",
        0x21 => "array-length",
        0x22 => "new-instance",
        0x23 => "new-array",
        0x24 => "filled-new-array",
        0x25 => "filled-new-array/range",
        0x26 => "fill-array-data",
        0x27 => "throw",
        0x28 => "goto",
        0x29 => "goto/16",
        0x2a => "goto/32",
        0x2b => "packed-switch",
        0x2c => "sparse-switch",
        0x2d => "cmpl-float",
        0x2e => "cmpg-float",
        0x2f => "cmpl-double",
        0x30 => "cmpg-double",
        0x31 => "cmp-long",
        0x32 => "if-eq",
        0x33 => "if-ne",
        0x34 => "if-lt",
        0x35 => "if-ge",
        0x36 => "if-gt",
        0x37 => "if-le",
        0x38 => "if-eqz",
        0x39 => "if-nez",
        0x3a => "if-ltz",
        0x3b => "if-gez",
        0x3c => "if-gtz",
        0x3d => "if-lez",
        0x3e => "unused",
        0x3f => "unused",
        0x40 => "unused",
        0x41 => "unused",
        0x42 => "unused",
        0x43 => "unused",
        0x44 => "aget",
        0x45 => "aget-wide",
        0x46 => "aget-object",
        0x47 => "aget-boolean",
        0x48 => "aget-byte",
        0x49 => "aget-char",
        0x4a => "aget-short",
        0x4b => "aput",
        0x4c => "aput-wide",
        0x4d => "aput-object",
        0x4e => "aput-boolean",
        0x4f => "aput-byte",
        0x50 => "aput-char",
        0x51 => "aput-short",
        0x52 => "iget",
        0x53 => "iget-wide",
        0x54 => "iget-object",
        0x55 => "iget-boolean",
        0x56 => "iget-byte",
        0x57 => "iget-char",
        0x58 => "iget-short",
        0x59 => "iput",
        0x5a => "iput-wide",
        0x5b => "iput-object",
        0x5c => "iput-boolean",
        0x5d => "iput-byte",
        0x5e => "iput-char",
        0x5f => "iput-short",
        0x60 => "sget",
        0x61 => "sget-wide",
        0x62 => "sget-object",
        0x63 => "sget-boolean",
        0x64 => "sget-byte",
        0x65 => "sget-char",
        0x66 => "sget-short",
        0x67 => "sput",
        0x68 => "sput-wide",
        0x69 => "sput-object",
        0x6a => "sput-boolean",
        0x6b => "sput-byte",
        0x6c => "sput-char",
        0x6d => "sput-short",
        0x6e => "invoke-virtual",
        0x6f => "invoke-super",
        0x70 => "invoke-direct",
        0x71 => "invoke-static",
        0x72 => "invoke-interface",
        0x73 => "unused",
        0x74 => "invoke-virtual/range",
        0x75 => "invoke-super/range",
        0x76 => "invoke-direct/range",
        0x77 => "invoke-static/range",
        0x78 => "invoke-interface/range",
        0x79 => "unused",
        0x7a => "unused",
        0x7b => "neg-int",
        0x7c => "not-int",
        0x7d => "neg-long",
        0x7e => "not-long",
        0x7f => "neg-float",
        0x80 => "neg-double",
        0x81 => "int-to-long",
        0x82 => "int-to-float",
        0x83 => "int-to-double",
        0x84 => "long-to-int",
        0x85 => "long-to-float",
        0x86 => "long-to-double",
        0x87 => "float-to-int",
        0x88 => "float-to-long",
        0x89 => "float-to-double",
        0x8a => "double-to-int",
        0x8b => "double-to-long",
        0x8c => "double-to-float",
        0x8d => "int-to-byte",
        0x8e => "int-to-char",
        0x8f => "int-to-short",
        0x90 => "add-int",
        0x91 => "sub-int",
        0x92 => "mul-int",
        0x93 => "div-int",
        0x94 => "rem-int",
        0x95 => "and-int",
        0x96 => "or-int",
        0x97 => "xor-int",
        0x98 => "shl-int",
        0x99 => "shr-int",
        0x9a => "ushr-int",
        0x9b => "add-long",
        0x9c => "sub-long",
        0x9d => "mul-long",
        0x9e => "div-long",
        0x9f => "rem-long",
        0xa0 => "and-long",
        0xa1 => "or-long",
        0xa2 => "xor-long",
        0xa3 => "shl-long",
        0xa4 => "shr-long",
        0xa5 => "ushr-long",
        0xa6 => "add-float",
        0xa7 => "sub-float",
        0xa8 => "mul-float",
        0xa9 => "div-float",
        0xaa => "rem-float",
        0xab => "add-double",
        0xac => "sub-double",
        0xad => "mul-double",
        0xae => "div-double",
        0xaf => "rem-double",
        0xb0 => "add-int/2addr",
        0xb1 => "sub-int/2addr",
        0xb2 => "mul-int/2addr",
        0xb3 => "div-int/2addr",
        0xb4 => "rem-int/2addr",
        0xb5 => "and-int/2addr",
        0xb6 => "or-int/2addr",
        0xb7 => "xor-int/2addr",
        0xb8 => "shl-int/2addr",
        0xb9 => "shr-int/2addr",
        0xba => "ushr-int/2addr",
        0xbb => "add-long/2addr",
        0xbc => "sub-long/2addr",
        0xbd => "mul-long/2addr",
        0xbe => "div-long/2addr",
        0xbf => "rem-long/2addr",
        0xc0 => "and-long/2addr",
        0xc1 => "or-long/2addr",
        0xc2 => "xor-long/2addr",
        0xc3 => "shl-long/2addr",
        0xc4 => "shr-long/2addr",
        0xc5 => "ushr-long/2addr",
        0xc6 => "add-float/2addr",
        0xc7 => "sub-float/2addr",
        0xc8 => "mul-float/2addr",
        0xc9 => "div-float/2addr",
        0xca => "rem-float/2addr",
        0xcb => "add-double/2addr",
        0xcc => "sub-double/2addr",
        0xcd => "mul-double/2addr",
        0xce => "div-double/2addr",
        0xcf => "rem-double/2addr",
        0xd0 => "add-int/lit16",
        0xd1 => "rsub-int",
        0xd2 => "mul-int/lit16",
        0xd3 => "div-int/lit16",
        0xd4 => "rem-int/lit16",
        0xd5 => "and-int/lit16",
        0xd6 => "or-int/lit16",
        0xd7 => "xor-int/lit16",
        0xd8 => "add-int/lit8",
        0xd9 => "rsub-int/lit8",
        0xda => "mul-int/lit8",
        0xdb => "div-int/lit8",
        0xdc => "rem-int/lit8",
        0xdd => "and-int/lit8",
        0xde => "or-int/lit8",
        0xdf => "xor-int/lit8",
        0xe0 => "shl-int/lit8",
        0xe1 => "shr-int/lit8",
        0xe2 => "ushr-int/lit8",
        0xe3 => "unused",
        0xe4 => "unused",
        0xe5 => "unused",
        0xe6 => "unused",
        0xe7 => "unused",
        0xe8 => "unused",
        0xe9 => "unused",
        0xea => "unused",
        0xeb => "unused",
        0xec => "unused",
        0xed => "unused",
        0xee => "unused",
        0xef => "unused",
        0xf0 => "unused",
        0xf1 => "unused",
        0xf2 => "unused",
        0xf3 => "unused",
        0xf4 => "unused",
        0xf5 => "unused",
        0xf6 => "unused",
        0xf7 => "unused",
        0xf8 => "unused",
        0xf9 => "unused",
        0xfa => "invoke-polymorphic",
        0xfb => "invoke-polymorphic/range",
        0xfc => "invoke-custom",
        0xfd => "invoke-custom/range",
        0xfe => "const-method-handle",
        0xff => "const-method-type",
    }
}

} // verus!
