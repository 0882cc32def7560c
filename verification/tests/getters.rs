//! The little-endian field readers and the per-format operand
//! accessors.

use libradar::getters::{read_2, read_4, read_8, read_h, read_l, InstFormat, _b};

#[test]
fn test_b() {
    let buf = [1, 2, 3];
    assert_eq!(_b(&buf, 0), 1);
    assert_eq!(_b(&buf, 1), 2 << 8);
    assert_eq!(_b(&buf, 2), 3 << 16);
}

#[test]
fn test_read_l_and_read_h() {
    let buf = [0xab, 2];
    assert_eq!(read_l(&buf), 0xb);
    assert_eq!(read_h(&buf), 0xa);
}

#[test]
fn test_read_n() {
    let buf = [0xf1, 0xf2, 0xf3, 0xf4, 0xf5, 0xf6, 0xf7, 0xf8, 0xf9];
    assert_eq!(read_2(&buf), 0xf2f1);
    assert_eq!(read_4(&buf), 0xf4f3f2f1);
    assert_eq!(read_8(&buf), 0xf8f7f6f5f4f3f2f1);
}

#[test]
fn test_lengths() {
    assert_eq!(InstFormat::Op00.length(), 2);
    assert_eq!(InstFormat::OpAA.length(), 2);
    assert_eq!(InstFormat::Op10t.length(), 2);
    assert_eq!(InstFormat::OpBA.length(), 2);
    assert_eq!(InstFormat::Op00AAAA.length(), 4);
    assert_eq!(InstFormat::Op20t.length(), 4);
    assert_eq!(InstFormat::OpAABBBB.length(), 4);
    assert_eq!(InstFormat::Op21t.length(), 4);
    assert_eq!(InstFormat::OpAACCBB.length(), 4);
    assert_eq!(InstFormat::OpBACCCC.length(), 4);
    assert_eq!(InstFormat::Op22t.length(), 4);
    assert_eq!(InstFormat::Op00AAAAAAAA.length(), 6);
    assert_eq!(InstFormat::Op30t.length(), 6);
    assert_eq!(InstFormat::Op00AAAABBBB.length(), 6);
    assert_eq!(InstFormat::OpAABBBBBBBB.length(), 6);
    assert_eq!(InstFormat::OpAABBBBCCCC.length(), 6);
    assert_eq!(InstFormat::OpAGBBBBDCFE.length(), 6);
    assert_eq!(InstFormat::OpAABBBBCCCCHHHH.length(), 8);
    assert_eq!(InstFormat::OpAGBBBBDCFEHHHH.length(), 8);
    assert_eq!(InstFormat::OpAABBBBBBBBBBBBBBBB.length(), 10);
}

fn all_formats() -> [InstFormat; 20] {
    [
    InstFormat::Op00,
    InstFormat::OpAA,
    InstFormat::Op10t,
    InstFormat::OpBA,
    InstFormat::Op00AAAA,
    InstFormat::Op20t,
    InstFormat::OpAABBBB,
    InstFormat::Op21t,
    InstFormat::OpAACCBB,
    InstFormat::OpBACCCC,
    InstFormat::Op22t,
    InstFormat::Op00AAAAAAAA,
    InstFormat::Op30t,
    InstFormat::Op00AAAABBBB,
    InstFormat::OpAABBBBBBBB,
    InstFormat::OpAABBBBCCCC,
    InstFormat::OpAGBBBBDCFE,
    InstFormat::OpAABBBBCCCCHHHH,
    InstFormat::OpAGBBBBDCFEHHHH,
    InstFormat::OpAABBBBBBBBBBBBBBBB,
    ]
}

#[test]
fn test_empty_buffer() {
    let buffer: [u8; 0] = [];
    for f in all_formats() {
        assert!(f.a(&buffer).is_err());
        assert!(f.b(&buffer).is_err());
        assert!(f.c(&buffer).is_err());
        assert!(f.d(&buffer).is_err());
        assert!(f.e(&buffer).is_err());
        assert!(f.f(&buffer).is_err());
        assert!(f.g(&buffer).is_err());
        assert!(f.h(&buffer).is_err());
    }
}

fn buffer() -> [u8; 11] {
    [0xf1, 0xf2, 0xf3, 0xf4, 0xf5, 0xf6, 0xf7, 0xf8, 0xf9, 0xfa, 0xfb]
}

#[test]
fn test_a() {
    assert!(InstFormat::Op00.a(&buffer()).is_err());
    assert_eq!(InstFormat::OpAA.a(&buffer()).unwrap(), buffer()[1] as u64);
    assert_eq!(
        InstFormat::Op10t.a(&buffer()).unwrap(),
        (buffer()[1] as i8) as u64
    );
}

#[test]
fn getters_test_b() {
    assert!(InstFormat::Op00.b(&buffer()).is_err());
    assert!(InstFormat::OpAA.b(&buffer()).is_err());
    assert!(InstFormat::Op10t.b(&buffer()).is_err());
    assert!(InstFormat::Op00AAAA.b(&buffer()).is_err());
    assert!(InstFormat::Op20t.b(&buffer()).is_err());
    assert!(InstFormat::Op00AAAAAAAA.b(&buffer()).is_err());
    assert!(InstFormat::Op30t.b(&buffer()).is_err());
}

#[test]
fn test_c() {
    assert!(InstFormat::Op00.c(&buffer()).is_err());
    assert!(InstFormat::OpAA.c(&buffer()).is_err());
    assert!(InstFormat::Op10t.c(&buffer()).is_err());
    assert!(InstFormat::OpBA.c(&buffer()).is_err());
    assert!(InstFormat::Op00AAAA.c(&buffer()).is_err());
    assert!(InstFormat::Op20t.c(&buffer()).is_err());
    assert!(InstFormat::OpAABBBB.c(&buffer()).is_err());
    assert!(InstFormat::Op21t.c(&buffer()).is_err());
    assert!(InstFormat::Op00AAAAAAAA.c(&buffer()).is_err());
    assert!(InstFormat::Op30t.c(&buffer()).is_err());
    assert!(InstFormat::Op00AAAABBBB.c(&buffer()).is_err());
    assert!(InstFormat::OpAABBBBBBBB.c(&buffer()).is_err());
    assert!(InstFormat::OpAABBBBBBBBBBBBBBBB.c(&buffer()).is_err());
}

#[test]
fn test_d() {
    assert!(InstFormat::Op00.d(&buffer()).is_err());
    assert!(InstFormat::OpAA.d(&buffer()).is_err());
    assert!(InstFormat::Op10t.d(&buffer()).is_err());
    assert!(InstFormat::OpBA.d(&buffer()).is_err());
    assert!(InstFormat::Op00AAAA.d(&buffer()).is_err());
    assert!(InstFormat::Op20t.d(&buffer()).is_err());
    assert!(InstFormat::OpAABBBB.d(&buffer()).is_err());
    assert!(InstFormat::Op21t.d(&buffer()).is_err());
    assert!(InstFormat::OpAACCBB.d(&buffer()).is_err());
    assert!(InstFormat::OpBACCCC.d(&buffer()).is_err());
    assert!(InstFormat::Op22t.d(&buffer()).is_err());
    assert!(InstFormat::Op00AAAAAAAA.d(&buffer()).is_err());
    assert!(InstFormat::Op30t.d(&buffer()).is_err());
    assert!(InstFormat::Op00AAAABBBB.d(&buffer()).is_err());
    assert!(InstFormat::OpAABBBBBBBB.d(&buffer()).is_err());
    assert!(InstFormat::OpAABBBBCCCC.d(&buffer()).is_err());
    assert!(InstFormat::OpAABBBBCCCCHHHH.d(&buffer()).is_err());
}

#[test]
fn test_e() {
    assert!(InstFormat::Op00.e(&buffer()).is_err());
    assert!(InstFormat::OpAA.e(&buffer()).is_err());
    assert!(InstFormat::Op10t.e(&buffer()).is_err());
    assert!(InstFormat::OpBA.e(&buffer()).is_err());
    assert!(InstFormat::Op00AAAA.e(&buffer()).is_err());
    assert!(InstFormat::Op20t.e(&buffer()).is_err());
    assert!(InstFormat::OpAABBBB.e(&buffer()).is_err());
    assert!(InstFormat::Op21t.e(&buffer()).is_err());
    assert!(InstFormat::OpAACCBB.e(&buffer()).is_err());
    assert!(InstFormat::OpBACCCC.e(&buffer()).is_err());
    assert!(InstFormat::Op22t.e(&buffer()).is_err());
    assert!(InstFormat::Op00AAAAAAAA.e(&buffer()).is_err());
    assert!(InstFormat::Op30t.e(&buffer()).is_err());
    assert!(InstFormat::Op00AAAABBBB.e(&buffer()).is_err());
    assert!(InstFormat::OpAABBBBBBBB.e(&buffer()).is_err());
    assert!(InstFormat::OpAABBBBCCCC.e(&buffer()).is_err());
    assert!(InstFormat::OpAABBBBCCCCHHHH.e(&buffer()).is_err());
    assert!(InstFormat::OpAABBBBBBBBBBBBBBBB.e(&buffer()).is_err());
}

#[test]
fn test_f() {
    assert!(InstFormat::Op00.f(&buffer()).is_err());
    assert!(InstFormat::OpAA.f(&buffer()).is_err());
    assert!(InstFormat::Op10t.f(&buffer()).is_err());
    assert!(InstFormat::OpBA.f(&buffer()).is_err());
    assert!(InstFormat::Op00AAAA.f(&buffer()).is_err());
    assert!(InstFormat::Op20t.f(&buffer()).is_err());
    assert!(InstFormat::OpAABBBB.f(&buffer()).is_err());
    assert!(InstFormat::Op21t.f(&buffer()).is_err());
    assert!(InstFormat::OpAACCBB.f(&buffer()).is_err());
    assert!(InstFormat::OpBACCCC.f(&buffer()).is_err());
    assert!(InstFormat::Op22t.f(&buffer()).is_err());
    assert!(InstFormat::Op00AAAAAAAA.f(&buffer()).is_err());
    assert!(InstFormat::Op30t.f(&buffer()).is_err());
    assert!(InstFormat::Op00AAAABBBB.f(&buffer()).is_err());
    assert!(InstFormat::OpAABBBBBBBB.f(&buffer()).is_err());
    assert!(InstFormat::OpAABBBBCCCC.f(&buffer()).is_err());
    assert!(InstFormat::OpAABBBBCCCCHHHH.f(&buffer()).is_err());
    assert!(InstFormat::OpAABBBBBBBBBBBBBBBB.f(&buffer()).is_err());
}

#[test]
fn test_g() {
    assert!(InstFormat::Op00.g(&buffer()).is_err());
    assert!(InstFormat::OpAA.g(&buffer()).is_err());
    assert!(InstFormat::Op10t.g(&buffer()).is_err());
    assert!(InstFormat::OpBA.g(&buffer()).is_err());
    assert!(InstFormat::Op00AAAA.g(&buffer()).is_err());
    assert!(InstFormat::Op20t.g(&buffer()).is_err());
    assert!(InstFormat::OpAABBBB.g(&buffer()).is_err());
    assert!(InstFormat::Op21t.g(&buffer()).is_err());
    assert!(InstFormat::OpAACCBB.g(&buffer()).is_err());
    assert!(InstFormat::OpBACCCC.g(&buffer()).is_err());
    assert!(InstFormat::Op22t.g(&buffer()).is_err());
    assert!(InstFormat::Op00AAAAAAAA.g(&buffer()).is_err());
    assert!(InstFormat::Op30t.g(&buffer()).is_err());
    assert!(InstFormat::Op00AAAABBBB.g(&buffer()).is_err());
    assert!(InstFormat::OpAABBBBBBBB.g(&buffer()).is_err());
    assert!(InstFormat::OpAABBBBCCCC.g(&buffer()).is_err());
    assert!(InstFormat::OpAABBBBCCCCHHHH.g(&buffer()).is_err());
    assert!(InstFormat::OpAABBBBBBBBBBBBBBBB.g(&buffer()).is_err());
}

#[test]
fn test_h() {
    assert!(InstFormat::Op00.h(&buffer()).is_err());
    assert!(InstFormat::OpAA.h(&buffer()).is_err());
    assert!(InstFormat::Op10t.h(&buffer()).is_err());
    assert!(InstFormat::OpBA.h(&buffer()).is_err());
    assert!(InstFormat::Op00AAAA.h(&buffer()).is_err());
    assert!(InstFormat::Op20t.h(&buffer()).is_err());
    assert!(InstFormat::OpAABBBB.h(&buffer()).is_err());
    assert!(InstFormat::Op21t.h(&buffer()).is_err());
    assert!(InstFormat::OpAACCBB.h(&buffer()).is_err());
    assert!(InstFormat::OpBACCCC.h(&buffer()).is_err());
    assert!(InstFormat::Op22t.h(&buffer()).is_err());
    assert!(InstFormat::Op00AAAAAAAA.h(&buffer()).is_err());
    assert!(InstFormat::Op30t.h(&buffer()).is_err());
    assert!(InstFormat::Op00AAAABBBB.h(&buffer()).is_err());
    assert!(InstFormat::OpAABBBBBBBB.h(&buffer()).is_err());
    assert!(InstFormat::OpAABBBBCCCC.h(&buffer()).is_err());
    assert!(InstFormat::OpAGBBBBDCFE.h(&buffer()).is_err());
    assert!(InstFormat::OpAABBBBBBBBBBBBBBBB.h(&buffer()).is_err());
}

#[test]
fn defined_slots_read_the_documented_bits() {
    assert_eq!(InstFormat::OpBA.a(&buffer()).unwrap(), 0x2);
    assert_eq!(InstFormat::OpBA.b(&buffer()).unwrap(), 0xf);
    assert_eq!(InstFormat::OpAABBBB.b(&buffer()).unwrap(), 0xf4f3);
    assert_eq!(InstFormat::OpAACCBB.b(&buffer()).unwrap(), 0xf3);
    assert_eq!(InstFormat::OpAACCBB.c(&buffer()).unwrap(), 0xf4);
    assert_eq!(InstFormat::OpBACCCC.c(&buffer()).unwrap(), 0xf4f3);
    assert_eq!(
        InstFormat::Op20t.a(&buffer()).unwrap(),
        (0xf4f3u16 as i16) as u64
    );
    assert_eq!(
        InstFormat::Op30t.a(&buffer()).unwrap(),
        (0xf6f5f4f3u32 as i32) as u64
    );
    assert_eq!(InstFormat::OpAGBBBBDCFE.a(&buffer()).unwrap(), 0xf);
    assert_eq!(InstFormat::OpAGBBBBDCFE.g(&buffer()).unwrap(), 0x2);
    assert_eq!(InstFormat::OpAGBBBBDCFE.b(&buffer()).unwrap(), 0xf4f3);
    assert_eq!(InstFormat::OpAGBBBBDCFE.c(&buffer()).unwrap(), 0x5);
    assert_eq!(InstFormat::OpAGBBBBDCFE.d(&buffer()).unwrap(), 0xf);
    assert_eq!(InstFormat::OpAGBBBBDCFE.e(&buffer()).unwrap(), 0x6);
    assert_eq!(InstFormat::OpAGBBBBDCFE.f(&buffer()).unwrap(), 0xf);
    assert_eq!(InstFormat::OpAABBBBCCCCHHHH.h(&buffer()).unwrap(), 0xf8f7);
    assert_eq!(
        InstFormat::OpAABBBBBBBBBBBBBBBB.b(&buffer()).unwrap(),
        0xfaf9f8f7f6f5f4f3
    );
}
