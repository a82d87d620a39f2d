use dove::devsize::parse_device_size;
use dove::disk::{
    format_bytes, format_image, header_space_of, header_text, initial_header, is_formatted,
    open_image, read_image, resolve_disk_name, Disk, Superblock, SIGNATURE,
};
use dove::error::StoreError;
use dove::header::Header;

const EMPTY_HEADER: &str =
    "{\"freelist\":{\"slots\":[{\"offset\":48,\"size\":1044432}]},\"graphlist\":{\"graphs\":[]},\"goblist\":{\"goblist\":[]}}";

#[test]
fn end_to_end_format_then_reopen() {
    let mut image = vec![0u8; 1048576];
    assert!(!is_formatted(&image));
    let h = initial_header(1048576, 4096).unwrap();
    assert_eq!(h.freelist().slots()[0].offset, 48);
    assert_eq!(h.freelist().slots()[0].size, 1044432);
    assert!(h.graphlist().graphs().is_empty());
    assert!(h.goblist().gobs().is_empty());

    let (sb, text) = open_image(&mut image, Some(4096), 1_700_000_000, EMPTY_HEADER.as_bytes()).unwrap();
    assert_eq!(sb.signature, 0x0510D05E);
    assert_eq!(sb.version, 1);
    assert_eq!(sb.create, 1_700_000_000);
    assert_eq!(sb.headeroffset, 48);
    assert_eq!(sb.headerspace, 4096);
    assert_eq!(sb.headersize, EMPTY_HEADER.len() as u64);
    assert_eq!(text, EMPTY_HEADER);
    assert!(is_formatted(&image));

    let snapshot = image.clone();
    let (sb2, text2) = open_image(&mut image, None, 1_800_000_000, b"ignored").unwrap();
    assert_eq!(sb2, sb);
    assert_eq!(text2, text);
    assert_eq!(image, snapshot);
}

#[test]
fn open_twice_reads_same_superblock() {
    let mut image = vec![0u8; 8192];
    open_image(&mut image, Some(1024), -5, b"{}").unwrap();
    let first = read_image(&image).unwrap();
    let second = read_image(&image).unwrap();
    assert_eq!(first, second);
    assert_eq!(first.0.create, -5);
}

#[test]
fn corrupt_header_byte_fails_decoding() {
    let mut image = vec![0u8; 8192];
    open_image(&mut image, Some(1024), 0, EMPTY_HEADER.as_bytes()).unwrap();
    image[48 + 3] = 0xff;
    assert_eq!(read_image(&image), Err(StoreError::HeaderDecodingFailure));
    assert_eq!(open_image(&mut image, Some(1024), 0, EMPTY_HEADER.as_bytes()), Err(StoreError::HeaderDecodingFailure));
}

#[test]
fn header_text_checks_utf8() {
    assert_eq!(header_text("é{}".as_bytes()), Ok("é{}".to_string()));
    assert_eq!(header_text(&[0x7b, 0xc3]), Err(StoreError::HeaderDecodingFailure));
    assert_eq!(header_text(&[]), Ok(String::new()));
}

#[test]
fn open_unformatted_without_header_space() {
    let mut image = vec![0u8; 8192];
    assert_eq!(open_image(&mut image, None, 0, b"{}"), Err(StoreError::ConfigMissing));
    assert_eq!(open_image(&mut image, Some(-1), 0, b"{}"), Err(StoreError::ConfigMissing));
    assert!(image.iter().all(|b| *b == 0));
}

#[test]
fn format_errors() {
    let mut small = vec![0u8; 50];
    assert_eq!(format_image(&mut small, 0, 100, b"{...}"), Err(StoreError::IOFailure));
    assert_eq!(small, vec![0u8; 50]);
    let mut image = vec![0u8; 500];
    assert_eq!(format_image(&mut image, 0, 2, b"{...}"), Err(StoreError::OutOfSpace));
    assert_eq!(format_bytes(0, 2, b"abc"), Err(StoreError::OutOfSpace));
}

#[test]
fn format_bytes_layout() {
    let v = format_bytes(7, 100, b"xy").unwrap();
    assert_eq!(v.len(), 50);
    assert_eq!(&v[0..8], &[0x5E, 0xD0, 0x10, 0x05, 0, 0, 0, 0]);
    assert_eq!(&v[8..16], &[1, 0, 0, 0, 0, 0, 0, 0]);
    assert_eq!(&v[16..24], &[7, 0, 0, 0, 0, 0, 0, 0]);
    assert_eq!(&v[24..32], &[48, 0, 0, 0, 0, 0, 0, 0]);
    assert_eq!(&v[32..40], &[2, 0, 0, 0, 0, 0, 0, 0]);
    assert_eq!(&v[40..48], &[100, 0, 0, 0, 0, 0, 0, 0]);
    assert_eq!(&v[48..], b"xy");
}

#[test]
fn superblock_round_trip() {
    let sb = Superblock { signature: SIGNATURE, version: 1, create: i64::MIN, headeroffset: 48, headersize: 9, headerspace: u64::MAX };
    let b = sb.to_bytes();
    assert_eq!(b.len(), 48);
    assert_eq!(Superblock::from_bytes(&b), Ok(sb));
    assert_eq!(Superblock::from_bytes(&b[..47]), Err(StoreError::IOFailure));
}

#[test]
fn read_image_body_past_end() {
    let sb = Superblock { signature: SIGNATURE, version: 1, create: 0, headeroffset: 48, headersize: 100, headerspace: 100 };
    let mut b = sb.to_bytes();
    b.extend_from_slice(b"short");
    assert_eq!(read_image(&b), Err(StoreError::IOFailure));
    assert_eq!(read_image(&[0u8; 10]), Err(StoreError::IOFailure));
}

#[test]
fn device_size_from_listing() {
    let out = b"Disk /dev/sda: 20 GiB, 21474836480 bytes, 41943040 sectors\nUnits: sectors\n";
    assert_eq!(parse_device_size(out), Ok(21474836480));
    assert_eq!(parse_device_size(b"Disk a: 1 MiB, 1048576"), Ok(1048576));
}

#[test]
fn device_size_fields_split_on_whitespace_runs() {
    assert_eq!(parse_device_size(b"x  1 2 3 4"), Ok(4));
    assert_eq!(parse_device_size(b"  x\t1 \t 2   3 4\r\n"), Ok(4));
    assert_eq!(parse_device_size(b"a  1 2 3"), Err(StoreError::DeviceSizeQueryFailure));
}

#[test]
fn device_size_only_from_first_line() {
    assert_eq!(parse_device_size(b"a b c\nd 5 6"), Err(StoreError::DeviceSizeQueryFailure));
    assert_eq!(parse_device_size(b"a b c d 7\n8"), Ok(7));
}

#[test]
fn device_size_failures() {
    assert_eq!(parse_device_size(b"Disk /dev/sda: 20 GiB,"), Err(StoreError::DeviceSizeQueryFailure));
    assert_eq!(parse_device_size(b""), Err(StoreError::DeviceSizeQueryFailure));
    assert_eq!(parse_device_size(b"a b c d 12x4 e"), Err(StoreError::DeviceSizeQueryFailure));
    assert_eq!(parse_device_size(b"a b c d 18446744073709551616 e"), Err(StoreError::DeviceSizeQueryFailure));
    assert_eq!(parse_device_size(b"a b c d 18446744073709551615 e"), Ok(u64::MAX));
}

#[test]
fn disk_name_resolution() {
    assert_eq!(resolve_disk_name(Some("/dev/a".to_string()), Some("/dev/b".to_string())), Ok("/dev/a".to_string()));
    assert_eq!(resolve_disk_name(None, Some("/dev/b".to_string())), Ok("/dev/b".to_string()));
    assert_eq!(resolve_disk_name(None, None), Err(StoreError::ConfigMissing));
}

#[test]
fn header_space_config() {
    assert_eq!(header_space_of(Some(4096)), Ok(4096));
    assert_eq!(header_space_of(Some(-1)), Err(StoreError::ConfigMissing));
    assert_eq!(header_space_of(None), Err(StoreError::ConfigMissing));
}

#[test]
fn initial_header_too_small_device() {
    assert!(matches!(initial_header(100, 60), Err(StoreError::OutOfSpace)));
    assert!(matches!(initial_header(u64::MAX, u64::MAX), Err(StoreError::OutOfSpace)));
    let h = initial_header(108, 60).unwrap();
    assert_eq!(h.freelist().slots()[0].size, 0);
}

#[test]
fn disk_holds_what_was_read() {
    let sb = Superblock { signature: SIGNATURE, version: 1, create: 3, headeroffset: 48, headersize: 2, headerspace: 64 };
    let d = Disk::new("/dev/x".to_string(), 4096, sb, Header::new(48, 4096, 64));
    assert_eq!(d.get_name(), "/dev/x");
    assert_eq!(d.get_size(), 4096);
    assert_eq!(d.superblock(), sb);
    assert_eq!(d.header().freelist().slots()[0].size, 4096 - 48 - 64);
}
