use bugstalker::debugger::debugee::dwarf::eval::{
    into_raw_bytes, piece_read_size, register_bytes, AddressKind, Piece, PieceLocation,
};
use bugstalker::debugger::dwarf::eval::{u64_to_bytes, EvalOption};
use bugstalker::debugger::dwarf::path_push;

#[test]
fn word_bytes_are_little_endian() {
    assert_eq!(u64_to_bytes(0x0102030405060708), [8, 7, 6, 5, 4, 3, 2, 1]);
    assert_eq!(u64_to_bytes(0), [0; 8]);
}

#[test]
fn register_piece_bytes() {
    assert_eq!(register_bytes(0x1122334455667788, 0, 4), vec![0x88, 0x77, 0x66, 0x55]);
    assert_eq!(register_bytes(0x1122334455667788, 8, 2), vec![0x77, 0x66]);
    assert_eq!(register_bytes(0xff, 0, 16).len(), 8);
    assert_eq!(piece_read_size(Some(32), 8), 4);
    assert_eq!(piece_read_size(None, 8), 8);
}

#[test]
fn raw_bytes_of_pieces() {
    let pieces = vec![
        Piece { size_in_bits: Some(16), bit_offset: None, location: PieceLocation::Register { value: 0xabcd } },
        Piece {
            size_in_bits: None,
            bit_offset: None,
            location: PieceLocation::Value { bytes: vec![1, 2, 3] },
        },
        Piece { size_in_bits: None, bit_offset: None, location: PieceLocation::Empty },
        Piece { size_in_bits: None, bit_offset: None, location: PieceLocation::Bytes { value: vec![9] } },
    ];
    let (addr, bytes) = into_raw_bytes(&pieces, 8, AddressKind::Value);
    assert_eq!(addr, None);
    assert_eq!(&bytes[..], &[0xcd, 0xab, 1, 2, 3, 9][..]);
}

#[test]
fn raw_bytes_of_address_piece() {
    let pieces = vec![Piece {
        size_in_bits: None,
        bit_offset: None,
        location: PieceLocation::Address { address: 0x2000, memory: vec![5, 6, 7, 8] },
    }];
    let (addr, bytes) = into_raw_bytes(&pieces, 4, AddressKind::MemoryAddress);
    assert_eq!(addr, Some(0x2000));
    assert_eq!(&bytes[..], &[5, 6, 7, 8][..]);
    let (addr, bytes) = into_raw_bytes(&pieces, 4, AddressKind::Value);
    assert_eq!(addr, Some(0x2000));
    assert_eq!(&bytes[..], &[0, 0x20, 0, 0, 0, 0, 0, 0][..]);
}

#[test]
fn eval_options() {
    let opts = EvalOption::new();
    assert_eq!(opts.base_frame(), None);
    assert!(opts.at_location().is_none());
    let opts = opts.with_base_frame(0x7ff0).with_at_location(vec![1, 2]);
    assert_eq!(opts.base_frame(), Some(0x7ff0));
    assert_eq!(opts.at_location(), Some(&vec![1, 2]));
}

#[test]
fn path_push_joins_components() {
    let mut p = String::from("/usr/src");
    path_push(&mut p, "lib");
    assert_eq!(p, "/usr/src/lib");
    path_push(&mut p, "/abs/file.rs");
    assert_eq!(p, "/abs/file.rs");
    let mut p = String::from("dir/");
    path_push(&mut p, "f.rs");
    assert_eq!(p, "dir/f.rs");
    let mut p = String::new();
    path_push(&mut p, "f.rs");
    assert_eq!(p, "f.rs");
}
