//! Tests for the header codec: parsing, serialization, checksums and the
//! field codec.

use basic_tar::{BasicTarError, Header};
use basic_tar::codec::{decode_octal_opt, decode_octal_req, encode_octal};
use basic_tar::raw::{self, Checksum, TypeFlag, BLOCK_LEN};

/// Computes the block checksum the way the wire format defines it and
/// stores it in the checksum field.
fn fix_checksum(block: &mut Vec<u8>) {
    let mut sum: u64 = 0;
    for i in 0..512 {
        sum += if (148..156).contains(&i) { 0x20u64 } else { block[i] as u64 };
    }
    let digits = format!("{:07o}", sum);
    block[148..155].copy_from_slice(digits.as_bytes());
    block[155] = 0;
}

fn put(block: &mut Vec<u8>, at: usize, bytes: &[u8]) {
    block[at..at + bytes.len()].copy_from_slice(bytes);
}

#[test]
fn test_empty_block_detection() {
    // An all-zero block is the distinguished empty-header outcome, not a
    // checksum or field error.
    let block = vec![0u8; 512];
    assert_eq!(Header::parse(block), Err(BasicTarError::EmptyHeader));
}

#[test]
fn test_parse_concrete_block() {
    let mut block = vec![0u8; 512];
    put(&mut block, 0, b"file.txt");
    put(&mut block, 100, b"0000644\0");
    put(&mut block, 108, b"0001750\0"); // uid 1000
    put(&mut block, 116, b"0001750\0"); // gid 1000
    put(&mut block, 124, b"00000000011\0"); // size 9
    block[156] = b'0';
    fix_checksum(&mut block);

    let header = Header::parse(block).unwrap();
    assert_eq!(header.path, "file.txt");
    assert_eq!(header.mode, Some(0o644));
    assert_eq!(header.uid, Some(1000));
    assert_eq!(header.gid, Some(1000));
    assert_eq!(header.size, 9);
    assert_eq!(header.mtime, None);
    assert_eq!(header.typeflag, b'0');
    assert_eq!(header.linkname, None);
}

#[test]
fn test_round_trip() {
    let header = Header {
        path: String::from("some/dir/file.txt"),
        mode: Some(0o755),
        uid: Some(1000),
        gid: Some(50),
        size: 1234567,
        mtime: Some(1_600_000_000),
        typeflag: TypeFlag::REGULAR,
        linkname: Some(String::from("target/of/link")),
    };
    let block = header.clone().serialize().unwrap();
    assert_eq!(block.len(), 512);
    assert_eq!(Header::parse(block), Ok(header));
}

#[test]
fn test_round_trip_multibyte_path() {
    // A path with multi-byte UTF-8 characters survives the trip: the
    // decode really decodes the bytes it was handed.
    let header = Header {
        path: String::from("r\u{e9}sum\u{e9}-\u{6587}\u{5b57}.txt"),
        mode: Some(0o644),
        uid: Some(1),
        gid: Some(1),
        size: 0,
        mtime: Some(0),
        typeflag: TypeFlag::REGULAR,
        linkname: None,
    };
    let block = header.clone().serialize().unwrap();
    assert_eq!(Header::parse(block), Ok(header));
}

#[test]
fn test_checksum_sensitivity() {
    let header = Header {
        path: String::from("file.txt"),
        mode: Some(0o644),
        uid: Some(0),
        gid: Some(0),
        size: 42,
        mtime: Some(123456),
        typeflag: TypeFlag::REGULAR,
        linkname: None,
    };
    let block = header.serialize().unwrap();
    // Flip one bit in every byte outside the checksum field in turn: the
    // parse must report the checksum mismatch each time.
    for i in (0..148).chain(156..512) {
        let mut mutated = block.clone();
        mutated[i] ^= 0x01;
        assert_eq!(
            Header::parse(mutated),
            Err(BasicTarError::InvalidData("Invalid header checksum")),
            "byte {} escaped the checksum",
            i
        );
    }
}

#[test]
fn test_octal_round_trip_width_8() {
    // 0, 1 and the largest value 7 octal digits hold.
    for v in [0u64, 1, 0o7777777] {
        let field = encode_octal(Some(v), 8).unwrap();
        assert_eq!(field.len(), 8);
        assert_eq!(decode_octal_req(&field), Ok(v));
    }
    // One more digit fails the encode.
    assert_eq!(
        encode_octal(Some(0o7777777 + 1), 8),
        Err(BasicTarError::ApiMisuse("`field` is too small to hold the value"))
    );
}

#[test]
fn test_octal_round_trip_width_12() {
    for v in [0u64, 1, 0o77777777777] {
        let field = encode_octal(Some(v), 12).unwrap();
        assert_eq!(field.len(), 12);
        assert_eq!(decode_octal_req(&field), Ok(v));
    }
    assert_eq!(
        encode_octal(Some(0o77777777777 + 1), 12),
        Err(BasicTarError::ApiMisuse("`field` is too small to hold the value"))
    );
}

#[test]
fn test_oversized_path_rejected() {
    let header = Header {
        path: "x".repeat(101),
        size: 0,
        typeflag: TypeFlag::REGULAR,
        ..Default::default()
    };
    assert_eq!(
        header.serialize(),
        Err(BasicTarError::ApiMisuse("`field` is too small to hold the value"))
    );
}

#[test]
fn test_oversized_linkname_rejected() {
    let header = Header {
        path: String::from("file"),
        size: 0,
        typeflag: TypeFlag::SYMLINK,
        linkname: Some("y".repeat(101)),
        ..Default::default()
    };
    assert_eq!(
        header.serialize(),
        Err(BasicTarError::ApiMisuse("`field` is too small to hold the value"))
    );
}

#[test]
fn test_path_at_width_limit_round_trips() {
    // Exactly 100 bytes fit, with no terminator needed.
    let header = Header {
        path: "p".repeat(100),
        mode: Some(0o600),
        uid: Some(1),
        gid: Some(1),
        size: 1,
        mtime: Some(1),
        typeflag: TypeFlag::REGULAR,
        linkname: None,
    };
    let block = header.clone().serialize().unwrap();
    assert_eq!(Header::parse(block), Ok(header));
}

#[test]
fn test_empty_path_rejected() {
    let header = Header { path: String::new(), size: 0, ..Default::default() };
    assert_eq!(
        header.serialize(),
        Err(BasicTarError::InvalidData("Required field is empty"))
    );
}

#[test]
fn test_invalid_utf8_name() {
    let mut block = vec![0u8; 512];
    put(&mut block, 0, &[0xff, 0xfe, 0xfd]);
    put(&mut block, 124, b"00000000000\0");
    fix_checksum(&mut block);
    assert_eq!(
        Header::parse(block),
        Err(BasicTarError::Unsupported("Header field is not UTF-8"))
    );
}

#[test]
fn test_malformed_octal_digits() {
    let mut block = vec![0u8; 512];
    put(&mut block, 0, b"file");
    put(&mut block, 100, b"00abc00\0");
    put(&mut block, 124, b"00000000000\0");
    fix_checksum(&mut block);
    assert_eq!(
        Header::parse(block),
        Err(BasicTarError::InvalidData("Invalid octal number"))
    );
}

#[test]
fn test_missing_required_name() {
    // A verifiable checksum over a block whose name field is empty: the
    // required-field failure, not a checksum one.
    let mut block = vec![0u8; 512];
    put(&mut block, 124, b"00000000011\0");
    fix_checksum(&mut block);
    assert_eq!(
        Header::parse(block),
        Err(BasicTarError::InvalidData("Required field is empty"))
    );
}

#[test]
fn test_missing_checksum_field() {
    // A non-zero block whose checksum field is empty fails as invalid
    // data before any field decodes.
    let mut block = vec![0u8; 512];
    put(&mut block, 0, b"file");
    put(&mut block, 124, b"00000000011\0");
    assert_eq!(
        Header::parse(block),
        Err(BasicTarError::InvalidData("Required field is empty"))
    );
}

#[test]
fn test_space_terminated_octal_field() {
    // A checksum written as digits terminated by a space (as other tar
    // writers do) still decodes: the space cut runs first.
    let mut block = vec![0u8; 512];
    put(&mut block, 0, b"file.txt");
    put(&mut block, 124, b"00000000011\0");
    block[156] = b'0';
    let mut sum: u64 = 0;
    for i in 0..512 {
        sum += if (148..156).contains(&i) { 0x20u64 } else { block[i] as u64 };
    }
    let digits = format!("{:06o}", sum);
    block[148..154].copy_from_slice(digits.as_bytes());
    block[154] = 0;
    block[155] = b' ';
    let header = Header::parse(block).unwrap();
    assert_eq!(header.path, "file.txt");
    assert_eq!(header.size, 9);
}

#[test]
fn test_raw_and_header_helpers() {
    let r = raw::raw();
    assert_eq!(r.len(), BLOCK_LEN);
    assert!(r.iter().all(|b| *b == 0));

    let mut tar = raw::header();
    Checksum::write(&mut tar);
    assert!(Checksum::verify(&tar).is_ok());
    let block = tar.into_raw();
    // An all-zero block checksums to 8 spaces: 256, octal 400.
    assert_eq!(&block[148..156], b"0000400\0");
}

#[test]
fn test_typeflag_values() {
    assert_eq!(TypeFlag::REGULAR, b'0');
    assert_eq!(TypeFlag::HARDLINK, b'1');
    assert_eq!(TypeFlag::SYMLINK, b'2');
    assert_eq!(TypeFlag::CHAR_DEV, b'3');
    assert_eq!(TypeFlag::BLOCK_DEV, b'4');
    assert_eq!(TypeFlag::DIRECTORY, b'5');
    assert_eq!(TypeFlag::FIFO_NODE, b'6');
    assert_eq!(TypeFlag::RESERVED, b'7');
    assert_eq!(TypeFlag::PAX_SINGLE, b'x');
    assert_eq!(TypeFlag::PAX_GLOBAL, b'g');
}

#[test]
fn test_absent_octal_reads_back_zero() {
    // An absent value encodes as an all-'0' digit string, so it reads
    // back as zero, not as absent; only an all-zero field reads as
    // absent.
    let field = encode_octal(None, 8).unwrap();
    assert_eq!(field, b"0000000\0".to_vec());
    assert_eq!(decode_octal_req(&field), Ok(0));
    assert_eq!(decode_octal_opt(&vec![0u8; 8]), Ok(None));
}

#[test]
fn test_plus_prefixed_octal_accepted() {
    let field = b"+000644\0".to_vec();
    assert_eq!(decode_octal_req(&field), Ok(0o644));
}

#[test]
fn test_octal_overflow_rejected() {
    // 23 octal digits cannot fit a u64.
    let field = b"77777777777777777777777\0".to_vec();
    assert_eq!(
        decode_octal_req(&field),
        Err(BasicTarError::InvalidData("Invalid octal number"))
    );
}
