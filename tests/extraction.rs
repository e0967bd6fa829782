use gmad::archive::{read_addon, GMA_MAGIC};
use gmad::cursor::ByteReader;
use gmad::extract::{extract_file, extract_payloads};
use gmad::paths::{create_output_file_path, is_contained, name_segments};
use gmad::text::ztstr;
use gmad::GmaError;

fn header(name: &str) -> Vec<u8> {
    let mut b = GMA_MAGIC.to_le_bytes().to_vec();
    b.extend_from_slice(&[3u8; 18]);
    b.extend_from_slice(name.as_bytes());
    b.push(0);
    b.extend_from_slice(b"a description\0");
    b.extend_from_slice(b"an author\0");
    b.extend_from_slice(&[9u8; 4]);
    b
}

fn record(b: &mut Vec<u8>, index: u32, name: &str, size: u32) {
    b.extend_from_slice(&index.to_le_bytes());
    b.extend_from_slice(name.as_bytes());
    b.push(0);
    b.extend_from_slice(&size.to_le_bytes());
    b.extend_from_slice(&[7u8; 8]);
}

fn sentinel(b: &mut Vec<u8>) {
    b.extend_from_slice(&0u32.to_le_bytes());
}

fn two_files() -> Vec<u8> {
    let mut b = header("myaddon");
    record(&mut b, 1, "a.txt", 5);
    record(&mut b, 2, "sub/b.txt", 3);
    sentinel(&mut b);
    b.extend_from_slice(b"AAAAA");
    b.extend_from_slice(b"BBB");
    b
}

fn out_root() -> Vec<String> {
    vec!["out".to_string()]
}

fn strings(parts: &[&str]) -> Vec<String> {
    parts.iter().map(|p| p.to_string()).collect()
}

#[test]
fn round_trip_ordering() {
    let e = extract_file(two_files(), &out_root());
    assert_eq!(e.outcome, Ok("myaddon".to_string()));
    assert_eq!(e.target, Some(strings(&["out", "myaddon"])));
    assert_eq!(e.writes.len(), 2);
    assert_eq!(e.writes[0].path, strings(&["out", "myaddon", "a.txt"]));
    assert_eq!(e.writes[0].contents, b"AAAAA".to_vec());
    assert_eq!(e.writes[1].path, strings(&["out", "myaddon", "sub", "b.txt"]));
    assert_eq!(e.writes[1].contents, b"BBB".to_vec());
}

#[test]
fn read_addon_lists_records_and_stops_at_payloads() {
    let data = two_files();
    let payload_start = data.len() - 8;
    let mut r = ByteReader::new(data);
    let addon = read_addon(&mut r).unwrap();
    assert_eq!(addon.name, "myaddon");
    assert_eq!(addon.files.len(), 2);
    assert_eq!(addon.files[0].name, "a.txt");
    assert_eq!(addon.files[0].size, 5);
    assert_eq!(addon.files[1].name, "sub/b.txt");
    assert_eq!(addon.files[1].size, 3);
    assert_eq!(r.position(), payload_start);
}

#[test]
fn magic_mismatch_is_invalid_format() {
    let mut data = two_files();
    data[0] = b'X';
    let mut r = ByteReader::new(data.clone());
    assert!(matches!(read_addon(&mut r), Err(GmaError::InvalidFormat)));
    assert_eq!(r.position(), 4);
    let e = extract_file(data, &out_root());
    assert_eq!(e.outcome, Err(GmaError::InvalidFormat));
    assert!(e.target.is_none());
    assert!(e.writes.is_empty());
}

#[test]
fn magic_read_big_endian_is_refused() {
    let mut data = two_files();
    data[0..4].copy_from_slice(&GMA_MAGIC.to_be_bytes());
    let e = extract_file(data, &out_root());
    assert_eq!(e.outcome, Err(GmaError::InvalidFormat));
}

#[test]
fn stream_shorter_than_magic_is_truncated() {
    let e = extract_file(vec![0x47, 0x4d], &out_root());
    assert_eq!(e.outcome, Err(GmaError::Truncated));
    assert!(e.target.is_none());
}

#[test]
fn empty_archive_is_success_without_directory() {
    let mut b = header("nothing");
    sentinel(&mut b);
    let e = extract_file(b, &out_root());
    assert_eq!(e.outcome, Ok("nothing".to_string()));
    assert!(e.target.is_none());
    assert!(e.writes.is_empty());
}

#[test]
fn truncated_payload_keeps_earlier_files() {
    let mut data = two_files();
    data.pop();
    let e = extract_file(data, &out_root());
    assert_eq!(e.outcome, Err(GmaError::Truncated));
    assert_eq!(e.target, Some(strings(&["out", "myaddon"])));
    assert_eq!(e.writes.len(), 1);
    assert_eq!(e.writes[0].path, strings(&["out", "myaddon", "a.txt"]));
    assert_eq!(e.writes[0].contents, b"AAAAA".to_vec());
}

#[test]
fn truncated_record_table_is_truncated() {
    let mut b = header("cut");
    record(&mut b, 1, "a.txt", 5);
    b.truncate(b.len() - 3);
    let e = extract_file(b, &out_root());
    assert_eq!(e.outcome, Err(GmaError::Truncated));
    assert!(e.target.is_none());
}

#[test]
fn missing_sentinel_is_truncated() {
    let mut b = header("cut");
    record(&mut b, 1, "a.txt", 0);
    let e = extract_file(b, &out_root());
    assert_eq!(e.outcome, Err(GmaError::Truncated));
}

#[test]
fn unterminated_addon_name_is_truncated() {
    let mut b = GMA_MAGIC.to_le_bytes().to_vec();
    b.extend_from_slice(&[0u8; 18]);
    b.extend_from_slice(b"no end");
    let e = extract_file(b, &out_root());
    assert_eq!(e.outcome, Err(GmaError::Truncated));
}

#[test]
fn parent_segment_is_refused() {
    let mut b = header("evil");
    record(&mut b, 1, "ok.txt", 1);
    record(&mut b, 2, "sub/../../escape.txt", 1);
    sentinel(&mut b);
    b.extend_from_slice(b"xy");
    let e = extract_file(b, &out_root());
    assert_eq!(e.outcome, Err(GmaError::UnsafePath));
    assert!(e.target.is_none());
    assert!(e.writes.is_empty());
}

#[test]
fn absolute_name_is_refused() {
    let mut b = header("evil");
    record(&mut b, 1, "/etc/passwd", 1);
    sentinel(&mut b);
    b.push(b'x');
    let e = extract_file(b, &out_root());
    assert_eq!(e.outcome, Err(GmaError::UnsafePath));
}

#[test]
fn parent_addon_name_is_refused() {
    let mut b = header("..");
    record(&mut b, 1, "a.txt", 1);
    sentinel(&mut b);
    b.push(b'x');
    let e = extract_file(b, &out_root());
    assert_eq!(e.outcome, Err(GmaError::UnsafePath));
}

#[test]
fn containment_policy() {
    assert!(is_contained("a.txt"));
    assert!(is_contained("lua/autorun/x.lua"));
    assert!(is_contained("a/./b"));
    assert!(is_contained("a..b/c"));
    assert!(!is_contained(".."));
    assert!(!is_contained("a/../b"));
    assert!(!is_contained("/abs"));
    assert!(!is_contained(""));
}

#[test]
fn rerun_gives_identical_writes() {
    let first = extract_file(two_files(), &out_root());
    let second = extract_file(two_files(), &out_root());
    assert_eq!(first.target, second.target);
    assert_eq!(first.outcome, second.outcome);
    assert_eq!(first.writes.len(), second.writes.len());
    for (a, b) in first.writes.iter().zip(second.writes.iter()) {
        assert_eq!(a.path, b.path);
        assert_eq!(a.contents, b.contents);
    }
}

#[test]
fn payload_bytes_consumed_equal_declared_sizes() {
    let mut data = two_files();
    data.extend_from_slice(b"trailing");
    let mut r = ByteReader::new(data);
    let addon = read_addon(&mut r).unwrap();
    let start = r.position();
    let (writes, res) = extract_payloads(&mut r, &addon.files, &strings(&["t"]));
    assert_eq!(res, Ok(()));
    assert_eq!(writes.len(), 2);
    assert_eq!(r.position() - start, 8);
    assert_eq!(r.remaining(), 8);
}

#[test]
fn zero_size_record_gives_empty_file() {
    let mut b = header("z");
    record(&mut b, 1, "empty.bin", 0);
    record(&mut b, 2, "one.bin", 1);
    sentinel(&mut b);
    b.push(42);
    let e = extract_file(b, &out_root());
    assert_eq!(e.outcome, Ok("z".to_string()));
    assert!(e.writes[0].contents.is_empty());
    assert_eq!(e.writes[1].contents, vec![42u8]);
}

#[test]
fn same_name_twice_writes_twice_in_order() {
    let mut b = header("dup");
    record(&mut b, 1, "f", 1);
    record(&mut b, 2, "f", 1);
    sentinel(&mut b);
    b.extend_from_slice(b"12");
    let e = extract_file(b, &out_root());
    assert_eq!(e.writes.len(), 2);
    assert_eq!(e.writes[0].contents, b"1".to_vec());
    assert_eq!(e.writes[1].contents, b"2".to_vec());
    assert_eq!(e.writes[0].path, e.writes[1].path);
}

#[test]
fn invalid_utf8_name_is_decoded_lossily() {
    let mut r = ByteReader::new(vec![b'a', 0xff, b'b', 0, b'z']);
    let t = ztstr(&mut r).unwrap();
    assert_eq!(t, "a\u{fffd}b");
    assert_eq!(r.position(), 4);
}

#[test]
fn text_without_terminator_is_truncated() {
    let mut r = ByteReader::new(b"abc".to_vec());
    assert!(matches!(ztstr(&mut r), Err(GmaError::Truncated)));
}

#[test]
fn reads_little_endian_integers() {
    let mut r = ByteReader::new(vec![0x47, 0x4d, 0x41, 0x44, 1]);
    assert_eq!(r.read_u32_le(), Ok(0x44414d47));
    assert_eq!(r.read_u32_le(), Err(GmaError::Truncated));
    assert_eq!(r.read_u8(), Ok(1));
    assert_eq!(r.read_u8(), Err(GmaError::Truncated));
}

#[test]
fn read_exact_and_skip() {
    let mut r = ByteReader::new(vec![1, 2, 3, 4, 5]);
    assert_eq!(r.skip(1), Ok(()));
    assert_eq!(r.read_exact(3), Ok(vec![2, 3, 4]));
    assert_eq!(r.read_exact(2), Err(GmaError::Truncated));
    assert_eq!(r.skip(2), Err(GmaError::Truncated));
    assert_eq!(r.position(), 4);
}

#[test]
fn splits_names_on_slashes() {
    assert_eq!(name_segments("a/b/c.txt"), strings(&["a", "b", "c.txt"]));
    assert_eq!(name_segments("plain"), strings(&["plain"]));
    assert_eq!(name_segments(""), strings(&[""]));
    assert_eq!(name_segments("a//b/"), strings(&["a", "", "b", ""]));
    assert_eq!(
        create_output_file_path(&strings(&["root", "addon"]), "x/y.txt"),
        strings(&["root", "addon", "x", "y.txt"])
    );
}
