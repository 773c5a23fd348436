use validate_encoding::detect::{detect, Detection};
use validate_encoding::mojibake::{find_latin1_bytes, looks_binary, scan};

fn detected(label: &str) -> Detection {
    detect(b"", Some(label)).ok().unwrap()
}

#[test]
fn ascii_and_valid_utf8_hold_no_latin1_bytes() {
    assert!(find_latin1_bytes(b"plain ascii").is_empty());
    assert!(find_latin1_bytes("blåbärssoppa".as_bytes()).is_empty());
    assert!(find_latin1_bytes("\u{1F600} smile".as_bytes()).is_empty());
}

#[test]
fn lone_latin1_byte_is_found() {
    assert_eq!(find_latin1_bytes(b"a\xe5b"), vec![(1, 0xE5)]);
}

#[test]
fn overlong_surrogate_and_out_of_range_sequences_are_rejected() {
    assert_eq!(find_latin1_bytes(b"\xc0\x80"), vec![(0, 0xC0), (1, 0x80)]);
    assert_eq!(find_latin1_bytes(b"\xed\xa0\x80"), vec![(0, 0xED), (1, 0xA0), (2, 0x80)]);
    assert_eq!(
        find_latin1_bytes(b"\xf4\x90\x80\x80"),
        vec![(0, 0xF4), (1, 0x90), (2, 0x80), (3, 0x80)]
    );
    assert_eq!(find_latin1_bytes(b"\xe0\x80\xaf"), vec![(0, 0xE0), (1, 0x80), (2, 0xAF)]);
}

#[test]
fn truncated_sequence_at_the_end_is_found() {
    assert_eq!(find_latin1_bytes(b"ok\xe2\x82"), vec![(2, 0xE2), (3, 0x82)]);
}

#[test]
fn empty_and_plain_text_are_not_binary() {
    assert!(!looks_binary(b""));
    assert!(!looks_binary(b"hello, world\n"));
}

#[test]
fn many_nul_bytes_make_binary() {
    assert!(looks_binary(&[0u8; 10]));
    let mut one_in_twenty = vec![b'a'; 19];
    one_in_twenty.push(0);
    assert!(!looks_binary(&one_in_twenty));
    let mut two_in_twenty = vec![b'a'; 18];
    two_in_twenty.push(0);
    two_in_twenty.push(0);
    assert!(looks_binary(&two_in_twenty));
}

#[test]
fn too_little_text_makes_binary() {
    let mut half = vec![b'a'; 5];
    half.extend_from_slice(&[0x80; 5]);
    assert!(!looks_binary(&half));
    let mut less = vec![b'a'; 4];
    less.extend_from_slice(&[0x80; 6]);
    assert!(looks_binary(&less));
}

#[test]
fn control_bytes_make_binary() {
    let mut bytes = vec![b'a'; 8];
    bytes.extend_from_slice(&[0x01, 0x02]);
    assert!(looks_binary(&bytes));
    let mut one = vec![b'a'; 9];
    one.push(0x1B);
    assert!(!looks_binary(&one));
}

#[test]
fn only_the_first_4096_bytes_count() {
    let mut bytes = vec![b'a'; 4096];
    bytes.extend_from_slice(&[0u8; 100]);
    assert!(!looks_binary(&bytes));
}

#[test]
fn valid_utf8_read_as_utf8_has_no_warnings() {
    let bytes = "héllo\nwörld\nĀ".as_bytes();
    assert!(scan(bytes, &detected("utf-8")).is_empty());
}

#[test]
fn latin1_read_as_utf8_is_reported_byte_by_byte() {
    let bytes = b"Malm\xf6\n\xe5\xe4";
    let ws = scan(bytes, &detected("utf-8"));
    assert_eq!(ws.len(), 5);

    assert_eq!(ws[0].warning_type, "replacement_char");
    assert_eq!(
        ws[0].message,
        "3 replacement character(s) U+FFFD — decoding errors in this file"
    );
    assert_eq!((ws[0].offset, ws[0].length, ws[0].line), (0, 0, 1));
    assert!(ws[0].bytes.is_empty());
    assert_eq!(ws[0].suggested_char, None);

    assert_eq!(ws[1].warning_type, "latin1_as_utf8");
    assert_eq!(
        ws[1].message,
        "Byte 0xF6 is invalid UTF-8 but valid Latin-1 \"ö\" — possible Latin-1→UTF-8 mojibake"
    );
    assert_eq!((ws[1].offset, ws[1].length, ws[1].line), (4, 1, 1));
    assert_eq!(ws[1].bytes, vec![0xF6]);
    assert_eq!(ws[1].suggested_char, Some("ö".to_string()));

    assert_eq!((ws[2].offset, ws[2].line), (6, 2));
    assert_eq!(ws[2].suggested_char, Some("å".to_string()));
    assert_eq!((ws[3].offset, ws[3].line), (7, 2));
    assert_eq!(ws[3].bytes, vec![0xE4]);

    assert_eq!(ws[4].warning_type, "latin1_as_utf8");
    assert_eq!(
        ws[4].message,
        "3 bytes are valid Latin-1 but invalid UTF-8 — file may actually be Latin-1 encoded"
    );
    assert_eq!((ws[4].offset, ws[4].length, ws[4].line), (4, 3, 1));
    assert!(ws[4].bytes.is_empty());
    assert_eq!(ws[4].suggested_char, None);
}

#[test]
fn lines_count_the_line_feeds_before_the_offset() {
    let ws = scan(b"ab\ncd\n\xf6", &detected("utf-8"));
    assert_eq!(ws.len(), 2);
    assert_eq!(ws[0].warning_type, "replacement_char");
    assert_eq!(ws[0].message, "1 replacement character(s) U+FFFD — decoding errors in this file");
    assert_eq!((ws[1].offset, ws[1].line), (6, 3));
}

#[test]
fn utf8_read_as_latin1_is_reported_per_pair() {
    let ws = scan(b"K\xc3\xb8benhavn\n\xc3\xa5", &detected("windows-1252"));
    assert_eq!(ws.len(), 2);
    assert_eq!(ws[0].warning_type, "utf8_as_latin1");
    assert_eq!(
        ws[0].message,
        "Bytes 0xC3 0xB8 look like UTF-8→Latin-1 mojibake — \"ø\" read as \"Ã¸\""
    );
    assert_eq!((ws[0].offset, ws[0].length, ws[0].line), (1, 2, 1));
    assert_eq!(ws[0].bytes, vec![0xC3, 0xB8]);
    assert_eq!(ws[0].suggested_char, Some("ø".to_string()));
    assert_eq!((ws[1].offset, ws[1].line), (11, 2));
    assert_eq!(ws[1].suggested_char, Some("å".to_string()));
}

#[test]
fn utf8_read_as_utf8_has_no_pair_warnings() {
    assert!(scan("Köbenhavn".as_bytes(), &detected("utf-8")).is_empty());
}

#[test]
fn pairs_do_not_overlap() {
    let ws = scan(b"\xc3\xc3\xa9", &detected("windows-1252"));
    assert_eq!(ws.len(), 1);
    assert_eq!(ws[0].offset, 1);
}

#[test]
fn valid_utf8_with_a_latin1_letter_byte_draws_no_latin1_warning() {
    let ws = scan("ā".as_bytes(), &detected("utf-8"));
    assert!(ws.is_empty());
}

#[test]
fn two_latin1_bytes_get_no_summary() {
    let ws = scan(b"\xe5 \xe4", &detected("utf-8"));
    assert_eq!(ws.len(), 3);
    assert_eq!(ws[0].warning_type, "replacement_char");
    assert_eq!(ws[1].offset, 0);
    assert_eq!(ws[2].offset, 2);
}

#[test]
fn every_warning_points_into_the_file() {
    let cases: Vec<(&[u8], &str)> = vec![
        (b"Malm\xf6\n\xe5\xe4 och \xc3\xa9t\xe9\n\n\xff", "utf-8"),
        (b"K\xc3\xb8benhavn\n\xc3\xa5\r\n\xc3\xa6", "windows-1252"),
        (b"\xe5\xe4\xf6\n\xe5\xe4\xf6", "utf-8"),
    ];
    for (bytes, label) in cases {
        for w in scan(bytes, &detected(label)) {
            assert!(w.offset + w.bytes.len() <= bytes.len());
            assert_eq!(&bytes[w.offset..w.offset + w.bytes.len()], &w.bytes[..]);
            let newlines = bytes[..w.offset].iter().filter(|&&b| b == b'\n').count();
            assert_eq!(w.line, newlines + 1);
        }
    }
}

#[test]
fn latin1_positions_are_non_ascii_and_increasing() {
    let bytes = b"a\xffb\xc3\xa9\xe5\xe4\x80\xf0\x9f";
    let found = find_latin1_bytes(bytes);
    assert_eq!(found, vec![(1, 0xFF), (5, 0xE5), (6, 0xE4), (7, 0x80), (8, 0xF0), (9, 0x9F)]);
    for w in found.windows(2) {
        assert!(w[0].0 < w[1].0);
    }
    for &(offset, byte) in &found {
        assert!(byte >= 0x80);
        assert_eq!(bytes[offset], byte);
    }
}

#[test]
fn misread_checks_exclude_each_other() {
    let bytes = b"R\xc3\xa4ksm\xf6rg\xe5s";
    let as_1252 = scan(bytes, &detected("windows-1252"));
    assert!(as_1252.iter().any(|w| w.warning_type == "utf8_as_latin1"));
    assert!(as_1252.iter().all(|w| w.warning_type != "latin1_as_utf8"));
    let as_utf8 = scan(bytes, &detected("utf-8"));
    assert!(as_utf8.iter().any(|w| w.warning_type == "latin1_as_utf8"));
    assert!(as_utf8.iter().all(|w| w.warning_type != "utf8_as_latin1"));
}
