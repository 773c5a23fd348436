use validate_encoding::detect::{
    compute_confidence, detect, is_valid_as, valid_encodings, DetectError, Detection,
};

fn named(label: &str) -> Detection {
    detect(b"", Some(label)).ok().unwrap()
}

#[test]
fn empty_buffer_is_utf8_for_certain() {
    let d = detect(b"", None).ok().unwrap();
    assert_eq!(d.name(), "UTF-8");
    assert_eq!(d.confidence, 100);
}

#[test]
fn expected_label_is_taken_at_full_confidence() {
    let d = detect(b"hello", Some("latin1")).ok().unwrap();
    assert_eq!(d.name(), "windows-1252");
    assert_eq!(d.confidence, 100);
    let d = detect(b"\xff\xfe", Some(" UTF-8 ")).ok().unwrap();
    assert_eq!(d.name(), "UTF-8");
    assert_eq!(d.confidence, 100);
}

#[test]
fn unknown_label_is_an_error() {
    match detect(b"abc", Some("no-such-encoding")) {
        Err(DetectError::UnknownEncoding(label)) => assert_eq!(label, "no-such-encoding"),
        Ok(_) => panic!("an unknown label was accepted"),
    }
    let e = DetectError::UnknownEncoding("klingon".to_string());
    assert_eq!(e.message(), "Unknown encoding: klingon");
}

#[test]
fn valid_utf8_text_is_detected_as_utf8() {
    let d = detect("Smörgåsbord på bordet".as_bytes(), None).ok().unwrap();
    assert_eq!(d.name(), "UTF-8");
    assert_eq!(d.confidence, 100);
}

#[test]
fn latin1_text_gets_a_single_byte_guess() {
    let bytes = b"Sm\xf6rg\xe5sbord p\xe5 bordet i M\xe4lardalen och G\xf6teborg";
    let d = detect(bytes, None).ok().unwrap();
    assert_ne!(d.name(), "UTF-8");
    assert!(is_valid_as(bytes, &d.encoding));
    assert_eq!(d.confidence, 90);
}

#[test]
fn valid_encodings_of_ascii_with_odd_length() {
    assert_eq!(valid_encodings(b"abc"), vec!["UTF-8", "windows-1252", "ISO-8859-15"]);
}

#[test]
fn valid_encodings_of_ascii_with_even_length() {
    assert_eq!(
        valid_encodings(b"ab"),
        vec!["UTF-8", "windows-1252", "ISO-8859-15", "UTF-16LE", "UTF-16BE"]
    );
}

#[test]
fn valid_encodings_of_a_lone_high_byte() {
    assert_eq!(valid_encodings(b"\xff"), vec!["windows-1252", "ISO-8859-15"]);
}

#[test]
fn strict_decoding_rejects_malformed_input() {
    let utf8 = named("utf-8").encoding;
    assert!(!is_valid_as(b"a\xff", &utf8));
    assert!(is_valid_as("å".as_bytes(), &utf8));
    assert!(!is_valid_as(b"\xed\xa0\x80", &utf8));
    assert!(is_valid_as(b"\xe5", &named("windows-1252").encoding));
    assert!(!is_valid_as(b"abc", &named("utf-16le").encoding));
}

#[test]
fn labels_name_their_canonical_encodings() {
    assert_eq!(named("utf8").name(), "UTF-8");
    assert_eq!(named("  Latin1 ").name(), "windows-1252");
    assert_eq!(named("iso-8859-15").name(), "ISO-8859-15");
    assert_eq!(named("utf-16le").name(), "UTF-16LE");
    assert_eq!(named("utf-16be").name(), "UTF-16BE");
    assert!(detect(b"", Some("utf 8")).is_err());
}

#[test]
fn confidence_of_clean_decodings() {
    let utf8 = named("utf-8").encoding;
    let windows_1252 = named("windows-1252").encoding;
    let latin9 = named("iso-8859-15").encoding;
    assert_eq!(compute_confidence("blåbär".as_bytes(), &utf8), 100);
    assert_eq!(compute_confidence(b"abc", &windows_1252), 92);
    let doubled = "ÃÃÃÃ".as_bytes();
    assert_eq!(compute_confidence(doubled, &windows_1252), 85);
    assert_eq!(compute_confidence(doubled, &latin9), 92);
    assert_eq!(compute_confidence("ÃÃÃ".as_bytes(), &windows_1252), 92);
    assert_eq!(compute_confidence(b"\xe5", &windows_1252), 90);
}

#[test]
fn confidence_of_failed_decodings_follows_the_share_replaced() {
    let utf8 = named("utf-8").encoding;
    assert_eq!(compute_confidence(b"a\xff", &utf8), 30);
    let mut fifty = vec![b'a'; 49];
    fifty.push(0xff);
    assert_eq!(compute_confidence(&fifty, &utf8), 60);
    let mut hundred = vec![b'a'; 99];
    hundred.push(0xff);
    assert_eq!(compute_confidence(&hundred, &utf8), 60);
    let mut more = vec![b'a'; 100];
    more.push(0xff);
    assert_eq!(compute_confidence(&more, &utf8), 80);
    assert_eq!(compute_confidence(b"abc", &named("utf-16le").encoding), 30);
}
