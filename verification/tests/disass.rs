//! The instruction decoder: lengths, payloads, errors and the
//! instruction stream.

use libradar::disass::{decode, disassemble, units_to_bytes, DecodeError, InstIterator};

#[test]
fn test_op() {
    let buf = [0, 0];
    let i = decode(&buf, 0).unwrap();
    assert_eq!(i.op(), buf[0] as usize);
}

#[test]
fn decode_never_panics_on_any_byte_slice() {
    // Every opcode, against the empty slice and several truncated
    // and padded ones.
    let mut op: usize = 0;
    while op <= 255 {
        let mut len: usize = 0;
        while len <= 12 {
            let mut buf: Vec<u8> = Vec::new();
            buf.push(op as u8);
            let mut k: usize = 1;
            while k < len {
                buf.push((k * 7) as u8);
                k += 1;
            }
            let _ = decode(&buf, 0);
            let _ = decode(&buf, 1);
            let _ = decode(&buf, usize::MAX);
            len += 1;
        }
        op += 1;
    }
    let empty: [u8; 0] = [];
    assert_eq!(decode(&empty, 0).map(|_| ()), Err(DecodeError::Truncated));
}

#[test]
fn fixed_format_lengths_follow_the_table() {
    // 11x (2 bytes), 22x (4 bytes), 31i (6 bytes), 45cc (8 bytes),
    // 51l (10 bytes).
    let buf = [
        0x0a, 1, 2, 3, 4, 5, 6, 7, 8, 9, 10, 11,
    ];
    assert_eq!(decode(&buf, 0).unwrap().length(), 2);
    let buf2 = [0x02, 1, 2, 3, 4, 5, 6, 7, 8, 9, 10, 11];
    assert_eq!(decode(&buf2, 0).unwrap().length(), 4);
    let buf6 = [0x14, 1, 2, 3, 4, 5, 6, 7, 8, 9, 10, 11];
    assert_eq!(decode(&buf6, 0).unwrap().length(), 6);
    let buf8 = [0xfa, 1, 2, 3, 4, 5, 6, 7, 8, 9, 10, 11];
    assert_eq!(decode(&buf8, 0).unwrap().length(), 8);
    let buf10 = [0x18, 1, 2, 3, 4, 5, 6, 7, 8, 9, 10, 11];
    assert_eq!(decode(&buf10, 0).unwrap().length(), 10);
}

#[test]
fn payload_lengths_follow_their_size_fields() {
    // Packed-switch payload with two entries: 8 + 4 * 2 = 16 bytes.
    let mut packed: Vec<u8> = vec![0x00, 0x01, 0x02, 0x00];
    while packed.len() < 16 {
        packed.push(0);
    }
    assert_eq!(decode(&packed, 0).unwrap().length(), 16);

    // Sparse-switch payload with one entry: 4 + 8 * 1 = 12 bytes.
    let mut sparse: Vec<u8> = vec![0x00, 0x02, 0x01, 0x00];
    while sparse.len() < 12 {
        sparse.push(0);
    }
    assert_eq!(decode(&sparse, 0).unwrap().length(), 12);

    // Fill-array-data payload, element width 3, element count 3:
    // 8 + 9 = 17, padded to the even length 18.
    let mut fill: Vec<u8> = vec![0x00, 0x03, 0x03, 0x00, 0x03, 0x00, 0x00, 0x00];
    while fill.len() < 18 {
        fill.push(0);
    }
    assert_eq!(decode(&fill, 0).unwrap().length(), 18);
}

#[test]
fn truncated_input_yields_truncated() {
    // A packed-switch payload whose size field promises more than
    // the buffer holds.
    let packed = [0x00, 0x01, 0x02, 0x00, 0, 0, 0, 0];
    assert_eq!(decode(&packed, 0).map(|_| ()), Err(DecodeError::Truncated));
    // A fixed-length instruction cut short.
    let wide = [0x18, 1, 2];
    assert_eq!(decode(&wide, 0).map(|_| ()), Err(DecodeError::Truncated));
    // One byte is never enough.
    let one = [0x0a];
    assert_eq!(decode(&one, 0).map(|_| ()), Err(DecodeError::Truncated));
}

#[test]
fn bad_nop_kind_and_unknown_opcode_are_typed_errors() {
    let bad_nop = [0x00, 0x04, 0, 0, 0, 0, 0, 0];
    assert_eq!(decode(&bad_nop, 0).map(|_| ()), Err(DecodeError::BadNopKind));
    let unknown = [0x3e, 0, 0, 0];
    assert_eq!(
        decode(&unknown, 0).map(|_| ()),
        Err(DecodeError::UnknownOpcode)
    );
}

#[test]
fn slot_accessors_yield_typed_errors_not_crashes() {
    // An 11x instruction defines slot A alone.
    let buf = [0x0a, 0x2a];
    let i = decode(&buf, 0).unwrap();
    assert_eq!(i.get_a(), Ok(0x2a));
    assert_eq!(i.get_b(), Err(DecodeError::InvalidSlot));
    assert_eq!(i.get_c(), Err(DecodeError::InvalidSlot));
    assert_eq!(i.get_d(), Err(DecodeError::InvalidSlot));
    assert_eq!(i.get_e(), Err(DecodeError::InvalidSlot));
    assert_eq!(i.get_f(), Err(DecodeError::InvalidSlot));
    assert_eq!(i.get_g(), Err(DecodeError::InvalidSlot));
    assert_eq!(i.get_h(), Err(DecodeError::InvalidSlot));
}

#[test]
fn classification_follows_the_opcode_ranges() {
    let invoke_virtual = decode(&[0x6e, 0x20, 0x01, 0x00, 0x32, 0x00], 0).unwrap();
    assert!(invoke_virtual.is_invoke());
    assert!(!invoke_virtual.is_const());
    assert_eq!(invoke_virtual.invoke_target(), Ok(1));
    assert_eq!(invoke_virtual.mnemonic(), "invoke-virtual");

    let const_string = decode(&[0x1a, 0x00, 0x07, 0x00], 0).unwrap();
    assert!(const_string.is_const_string());
    assert!(const_string.is_const());
    assert_eq!(const_string.string_idx(), Ok(7));
    assert_eq!(const_string.mnemonic(), "const-string");

    let iget = decode(&[0x52, 0x10, 0x03, 0x00], 0).unwrap();
    assert!(iget.is_read_field());
    assert_eq!(iget.field(), Ok(3));
    assert_eq!(iget.mnemonic(), "iget");

    let sget = decode(&[0x60, 0x00, 0x05, 0x00], 0).unwrap();
    assert!(sget.is_read_field());
    assert_eq!(sget.field(), Ok(5));
    assert_eq!(sget.mnemonic(), "sget");

    let ret = decode(&[0x0e, 0x00], 0).unwrap();
    assert!(ret.is_return());
    assert_eq!(ret.mnemonic(), "return-void");

    let thr = decode(&[0x27, 0x00], 0).unwrap();
    assert!(thr.is_throw());

    let goto = decode(&[0x28, 0x03], 0).unwrap();
    assert!(goto.is_goto());
    assert_eq!(goto.get_a(), Ok(3));

    let branch = decode(&[0x38, 0x01, 0x05, 0x00], 0).unwrap();
    assert!(branch.is_branch());

    let switch = decode(&[0x2b, 0x00, 0x01, 0x00, 0x00, 0x00], 0).unwrap();
    assert!(switch.is_switch());
    assert_eq!(switch.mnemonic(), "packed-switch");

    let lit8 = decode(&[0xd8, 0x01, 0x02, 0x10], 0).unwrap();
    assert_eq!(lit8.mnemonic(), "add-int/lit8");
}

#[test]
fn stream_yields_each_instruction_once_then_ends() {
    // return-void; move-result; goto.
    let bytes = [0x0e, 0x00, 0x0a, 0x01, 0x28, 0x02];
    let mut it = InstIterator::new(&bytes, bytes.len());
    let first = it.next().unwrap().unwrap();
    assert_eq!(first.op(), 0x0e);
    let second = it.next().unwrap().unwrap();
    assert_eq!(second.op(), 0x0a);
    let third = it.next().unwrap().unwrap();
    assert_eq!(third.op(), 0x28);
    assert!(it.next().is_none());
    assert!(it.next().is_none());
}

#[test]
fn stream_yields_one_error_then_ends() {
    // An unknown opcode in the middle stops the stream.
    let bytes = [0x0e, 0x00, 0x3e, 0x00, 0x0e, 0x00];
    let mut it = InstIterator::new(&bytes, bytes.len());
    assert!(it.next().unwrap().is_ok());
    assert_eq!(it.next().unwrap().map(|_| ()), Err(DecodeError::UnknownOpcode));
    assert!(it.next().is_none());
}

#[test]
fn code_units_become_little_endian_bytes() {
    let units = [0x3412u16, 0x0001];
    let bytes = units_to_bytes(&units);
    assert_eq!(bytes, vec![0x12, 0x34, 0x01, 0x00]);
    let mut it = disassemble(&units);
    let first = it.next().unwrap().unwrap();
    assert_eq!(first.op(), 0x12);
}
