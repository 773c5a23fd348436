//! Guessing the encoding of a byte buffer and how sure the guess is.

use chardetng::EncodingDetector;
use vstd::prelude::*;

use crate::charset::{
    charset_for_label, decode_replacing, decodable, decodes_strictly, known, label_encoding,
    replacing_decode, strict_decode, utf8_name, windows_1252_name, Charset, Known,
};
use crate::text::{push_str, same_text};
use vstd::utf8::{encode_utf8, valid_utf8};

verus! {

#[verifier::external_type_specification]
#[verifier::external_body]
pub struct ExEncodingDetector(EncodingDetector);

/// The byte stream fed to a detector so far.
pub uninterp spec fn detector_input(d: EncodingDetector) -> Seq<u8>;

/// Whether the end of the stream has been fed to a detector.
pub uninterp spec fn detector_closed(d: EncodingDetector) -> bool;

/// What `EncodingDetector::guess` gives for a stream (and whether its end
/// was fed), a top-level domain and whether UTF-8 may be guessed: the name
/// of the guessed encoding.
pub uninterp spec fn detector_guess(
    input: Seq<u8>,
    closed: bool,
    tld: Option<Seq<u8>>,
    allow_utf8: bool,
) -> Seq<char>;

/// `EncodingDetector::new`: a detector that has seen nothing.
#[verifier::external_body]
fn new_detector() -> (d: EncodingDetector)
    ensures
        detector_input(d) == Seq::<u8>::empty(),
        !detector_closed(d),
{
    EncodingDetector::new()
}

/// `EncodingDetector::feed`. The contract claims what the `chardetng`
/// documentation states: the stream is the concatenation of the buffers
/// fed, `last` marks its end, the method must not be called after the end
/// was fed, and it answers whether the stream so far holds a non-ASCII byte.
#[verifier::external_body]
fn feed_detector(d: &mut EncodingDetector, buffer: &[u8], last: bool) -> (non_ascii: bool)
    requires
        !detector_closed(*old(d)),
    ensures
        detector_input(*final(d)) == detector_input(*old(d)) + buffer@,
        detector_closed(*final(d)) == last,
        non_ascii == exists|i: int|
            0 <= i < detector_input(*final(d)).len() && detector_input(*final(d))[i] >= 0x80,
{
    d.feed(buffer, last)
}

/// `EncodingDetector::guess`, paired with `Encoding::name`. The contract
/// claims that the guess is the one `detector_guess` names for the stream
/// fed, and, as documented, that it is not UTF-8 when UTF-8 is not allowed.
/// It also claims what the source of `guess_assess` shows: UTF-8 is guessed
/// only while the UTF-8 candidate, which decodes every non-ASCII part of the
/// stream without replacement (the skipped prefix is ASCII), has met no
/// malformed input; so once the end was fed, a UTF-8 guess means the whole
/// stream is valid UTF-8.
/// The domain, when given, must be free of upper-case letters, periods and
/// non-ASCII bytes, or the method panics.
#[verifier::external_body]
fn guess_detector(d: &EncodingDetector, tld: Option<&[u8]>, allow_utf8: bool) -> (c: Charset)
    requires
        tld matches Some(t) ==> forall|i: int|
            0 <= i < t@.len() ==> !(t@[i] >= 0x80 || t@[i] == 0x2e || (0x41 <= t@[i] <= 0x5a)),
    ensures
        c@ == detector_guess(
            detector_input(*d),
            detector_closed(*d),
            match tld {
                Some(t) => Some(t@),
                None => None,
            },
            allow_utf8,
        ),
        !allow_utf8 ==> c@ != utf8_name(),
        detector_closed(*d) && c@ == utf8_name() ==> valid_utf8(detector_input(*d)),
{
    let enc = d.guess(tld, allow_utf8);
    Charset { name: enc.name(), enc }
}

/// How many items of `s` satisfy `p`.
pub open spec fn count_where<T>(s: Seq<T>, p: spec_fn(T) -> bool) -> nat
    decreases s.len(),
{
    if s.len() == 0 {
        0
    } else {
        count_where(s.drop_last(), p) + if p(s.last()) { 1nat } else { 0nat }
    }
}

/// The replacement character U+FFFD.
pub open spec fn is_replacement(c: char) -> bool {
    c == '\u{FFFD}'
}

/// Characters that turn up when UTF-8 text is read as Latin-1 and written
/// back as UTF-8.
pub open spec fn is_suspicious_latin1(c: char) -> bool {
    ||| c == '\u{00C3}'
    ||| c == '\u{00C2}'
    ||| c == '\u{00A4}'
    ||| c == '\u{00A5}'
    ||| c == '\u{00A9}'
    ||| c == '\u{00AE}'
    ||| c == '\u{00B0}'
    ||| c == '\u{00B1}'
    ||| c == '\u{00B6}'
    ||| c == '\u{00B7}'
    ||| c == '\u{00BC}'
    ||| c == '\u{00BD}'
    ||| c == '\u{00BE}'
    ||| c == '\u{00BF}'
}

/// The number of U+FFFD in the replacing decoding of `bytes`, counted only
/// when the bytes hold malformed input.
pub open spec fn replacement_count(bytes: Seq<u8>, encoding: Seq<char>) -> nat {
    if decodes_cleanly(bytes, encoding) {
        0
    } else {
        count_where(replacing_decode(encoding, bytes).0, |c: char| is_replacement(c))
    }
}

/// The number of suspicious Latin-1 characters in `bytes` decoded as UTF-8.
pub open spec fn suspicious_count(bytes: Seq<u8>) -> nat {
    count_where(replacing_decode(utf8_name(), bytes).0, |c: char| is_suspicious_latin1(c))
}

/// Whether `bytes` decode without error in `encoding`.
pub open spec fn decodes_cleanly(bytes: Seq<u8>, encoding: Seq<char>) -> bool {
    strict_decode(encoding, bytes).is_some()
}

/// The confidence, in percent, that `bytes` are in `encoding`:
/// clean decodings score high, and among failed ones the share of bytes
/// replaced decides (below one in a hundred, below one in twenty, or more).
pub open spec fn confidence_percent(bytes: Seq<u8>, encoding: Seq<char>) -> u8 {
    let utf8_clean = decodes_cleanly(bytes, utf8_name());
    if decodes_cleanly(bytes, encoding) {
        if encoding == utf8_name() {
            100
        } else if utf8_clean {
            if suspicious_count(bytes) > 3 && encoding == windows_1252_name() {
                85
            } else {
                92
            }
        } else {
            90
        }
    } else if !utf8_clean && encoding == windows_1252_name() {
        95
    } else {
        let replaced = replacement_count(bytes, encoding);
        let total = if bytes.len() == 0 { 1 } else { bytes.len() };
        if replaced * 100 < total {
            80
        } else if replaced * 20 < total {
            60
        } else {
            30
        }
    }
}

/// A confidence is one of eight percentages, the highest being 100.
pub proof fn lemma_confidence_is_percentage(bytes: Seq<u8>, encoding: Seq<char>)
    ensures
        ({
            let c = confidence_percent(bytes, encoding);
            c == 100 || c == 95 || c == 92 || c == 90 || c == 85 || c == 80 || c == 60 || c == 30
        }),
{
}

/// Full confidence goes to exactly one finding: bytes that decode cleanly
/// as UTF-8, detected as UTF-8.
pub proof fn lemma_full_confidence_only_for_clean_utf8(bytes: Seq<u8>, encoding: Seq<char>)
    ensures
        confidence_percent(bytes, encoding) == 100 <==> encoding == utf8_name() && decodes_cleanly(
            bytes,
            encoding,
        ),
{
}

/// An encoding in which the bytes decode cleanly is trusted more than any
/// in which they do not, except the windows-1252 fallback for bytes that
/// are not UTF-8 either: clean decodings score at least 85, failed ones at
/// most 80 (or 95 for that fallback).
pub proof fn lemma_clean_decoding_scores_higher(bytes: Seq<u8>, encoding: Seq<char>)
    ensures
        decodes_cleanly(bytes, encoding) ==> confidence_percent(bytes, encoding) >= 85,
        !decodes_cleanly(bytes, encoding) ==> (confidence_percent(bytes, encoding) <= 80 || (
        confidence_percent(bytes, encoding) == 95 && encoding == windows_1252_name()
            && !decodes_cleanly(bytes, utf8_name()))),
{
}

/// The encoding guessed for a whole non-empty buffer.
pub open spec fn guessed_encoding(bytes: Seq<u8>) -> Seq<char> {
    detector_guess(bytes, true, None, true)
}

/// The outcome of detection: the encoding's name and the confidence in
/// percent, or the label that names no encoding.
pub open spec fn detection_outcome(bytes: Seq<u8>, expected: Option<Seq<char>>) -> Result<
    (Seq<char>, u8),
    Seq<char>,
> {
    match expected {
        Some(label) => match label_encoding(encode_utf8(label)) {
            Some(name) => Ok((name, 100u8)),
            None => Err(label),
        },
        None => if bytes.len() == 0 {
            Ok((utf8_name(), 100u8))
        } else {
            let name = guessed_encoding(bytes);
            Ok((name, confidence_percent(bytes, name)))
        },
    }
}

/// An encoding found for a buffer and how sure the finding is.
pub struct Detection {
    pub encoding: Charset,
    /// Confidence in percent.
    pub confidence: u8,
}

impl View for Detection {
    type V = (Seq<char>, u8);

    open spec fn view(&self) -> (Seq<char>, u8) {
        (self.encoding@, self.confidence)
    }
}

impl Detection {
    /// The canonical name of the detected encoding.
    pub fn name(&self) -> (r: &'static str)
        ensures
            r@ == self.encoding@,
    {
        self.encoding.name()
    }
}

/// Why detection failed.
pub enum DetectError {
    /// The expected encoding's label names no encoding.
    UnknownEncoding(String),
}

impl View for DetectError {
    type V = Seq<char>;

    open spec fn view(&self) -> Seq<char> {
        match self {
            DetectError::UnknownEncoding(label) => label@,
        }
    }
}

impl DetectError {
    /// The message text of the error.
    pub fn message(&self) -> (m: String)
        ensures
            m@ == "Unknown encoding: "@ + self@,
    {
        match self {
            DetectError::UnknownEncoding(label) => {
                let mut m = String::new();
                push_str(&mut m, "Unknown encoding: ");
                push_str(&mut m, label.as_str());
                m
            },
        }
    }
}

/// The view of a detection result.
pub open spec fn detection_view(r: Result<Detection, DetectError>) -> Result<
    (Seq<char>, u8),
    Seq<char>,
> {
    match r {
        Ok(d) => Ok(d@),
        Err(e) => Err(e@),
    }
}

/// Finds the encoding of `bytes`: the one `expected` names if given, else
/// UTF-8 for an empty buffer, else the detector's guess, with a confidence.
/// Without an expected encoding, the bytes are found to be UTF-8 only when
/// the whole buffer is valid UTF-8.
pub fn detect(bytes: &[u8], expected: Option<&str>) -> (r: Result<Detection, DetectError>)
    requires
        expected is None ==> decodable(bytes@),
    ensures
        detection_view(r) == detection_outcome(
            bytes@,
            match expected {
                Some(l) => Some(l@),
                None => None,
            },
        ),
        expected is None ==> (r matches Ok(d) && d.encoding@ == utf8_name() ==> valid_utf8(
            bytes@,
        )),
{
    if let Some(label) = expected {
        let found = charset_for_label(label.as_bytes());
        return match found {
            Some(encoding) => Ok(Detection { encoding, confidence: 100 }),
            None => Err(DetectError::UnknownEncoding(label.to_owned())),
        };
    }
    if bytes.len() == 0 {
        return Ok(Detection { encoding: known(Known::Utf8), confidence: 100 });
    }
    let mut detector = new_detector();
    feed_detector(&mut detector, bytes, true);
    assert(detector_input(detector) =~= bytes@);
    let encoding = guess_detector(&detector, None, true);
    let confidence = compute_confidence(bytes, &encoding);
    Ok(Detection { encoding, confidence })
}

/// Whether a charset is UTF-8.
fn is_utf8(c: &Charset) -> (r: bool)
    ensures
        r == (c@ == utf8_name()),
{
    same_text(c.name(), "UTF-8")
}

/// Whether a charset is windows-1252.
fn is_windows_1252(c: &Charset) -> (r: bool)
    ensures
        r == (c@ == windows_1252_name()),
{
    same_text(c.name(), "windows-1252")
}

/// The confidence, in percent, that `bytes` are in `encoding`.
pub fn compute_confidence(bytes: &[u8], encoding: &Charset) -> (r: u8)
    requires
        decodable(bytes@),
    ensures
        r == confidence_percent(bytes@, encoding@),
{
    let utf8 = known(Known::Utf8);
    let has_utf8_errors = has_errors(bytes, &utf8);
    let has_detected_errors = has_errors(bytes, encoding);
    if !has_detected_errors {
        if is_utf8(encoding) {
            return 100;
        }
        if !has_utf8_errors {
            let suspicious = count_suspicious_latin1_chars(bytes, &utf8);
            if suspicious > 3 && is_windows_1252(encoding) {
                return 85;
            }
            return 92;
        }
        return 90;
    }
    if has_utf8_errors && is_windows_1252(encoding) {
        return 95;
    }
    let replaced = replacement_char_count(bytes, encoding) as u128;
    let total: u128 = if bytes.len() == 0 { 1 } else { bytes.len() as u128 };
    if replaced * 100 < total {
        80
    } else if replaced * 20 < total {
        60
    } else {
        30
    }
}

fn has_errors(bytes: &[u8], encoding: &Charset) -> (r: bool)
    requires
        decodable(bytes@),
    ensures
        r == !decodes_cleanly(bytes@, encoding@),
{
    !decodes_strictly(encoding, bytes)
}

/// Counts the U+FFFD characters of `text`.
pub(crate) fn count_replacements(text: &Vec<char>) -> (n: usize)
    ensures
        n == count_where(text@, |c: char| is_replacement(c)),
{
    let mut n: usize = 0;
    let mut i: usize = 0;
    while i < text.len()
        invariant
            i <= text@.len(),
            n <= i,
            n == count_where(text@.take(i as int), |c: char| is_replacement(c)),
        decreases text@.len() - i,
    {
        assert(text@.take(i + 1).drop_last() =~= text@.take(i as int));
        if text[i] == '\u{FFFD}' {
            n = n + 1;
        }
        i = i + 1;
    }
    assert(text@.take(i as int) =~= text@);
    n
}

fn count_suspicious(text: &Vec<char>) -> (n: usize)
    ensures
        n == count_where(text@, |c: char| is_suspicious_latin1(c)),
{
    let mut n: usize = 0;
    let mut i: usize = 0;
    while i < text.len()
        invariant
            i <= text@.len(),
            n <= i,
            n == count_where(text@.take(i as int), |c: char| is_suspicious_latin1(c)),
        decreases text@.len() - i,
    {
        assert(text@.take(i + 1).drop_last() =~= text@.take(i as int));
        let c = text[i];
        if c == '\u{00C3}' || c == '\u{00C2}' || c == '\u{00A4}' || c == '\u{00A5}'
            || c == '\u{00A9}' || c == '\u{00AE}' || c == '\u{00B0}' || c == '\u{00B1}'
            || c == '\u{00B6}' || c == '\u{00B7}' || c == '\u{00BC}' || c == '\u{00BD}'
            || c == '\u{00BE}' || c == '\u{00BF}' {
            n = n + 1;
        }
        i = i + 1;
    }
    assert(text@.take(i as int) =~= text@);
    n
}

fn replacement_char_count(bytes: &[u8], encoding: &Charset) -> (n: usize)
    requires
        decodable(bytes@),
    ensures
        n == replacement_count(bytes@, encoding@),
{
    let (decoded, had_errors) = decode_replacing(encoding, bytes);
    if !had_errors {
        return 0;
    }
    count_replacements(&decoded)
}

fn count_suspicious_latin1_chars(bytes: &[u8], target: &Charset) -> (n: usize)
    requires
        decodable(bytes@),
    ensures
        n == count_where(replacing_decode(target@, bytes@).0, |c: char| is_suspicious_latin1(c)),
        target@ == utf8_name() ==> n == suspicious_count(bytes@),
{
    let (decoded, _) = decode_replacing(target, bytes);
    count_suspicious(&decoded)
}

/// The names of the candidate encodings, in order: UTF-8, windows-1252,
/// ISO-8859-15, UTF-16LE and UTF-16BE.
pub open spec fn candidate(i: int) -> Known {
    if i == 0 {
        Known::Utf8
    } else if i == 1 {
        Known::Windows1252
    } else if i == 2 {
        Known::Iso8859_15
    } else if i == 3 {
        Known::Utf16Le
    } else {
        Known::Utf16Be
    }
}

/// The candidates among the first `n` in which `bytes` decode cleanly.
pub open spec fn valid_candidates(bytes: Seq<u8>, n: int) -> Seq<Seq<char>>
    decreases n,
{
    if n <= 0 {
        seq![]
    } else {
        let name = candidate(n - 1).spec_name();
        valid_candidates(bytes, n - 1) + if decodes_cleanly(bytes, name) {
            seq![name]
        } else {
            seq![]
        }
    }
}

/// The names of the candidate encodings in which `bytes` decode without
/// error, in the order UTF-8, windows-1252, ISO-8859-15, UTF-16LE, UTF-16BE.
pub fn valid_encodings(bytes: &[u8]) -> (r: Vec<&'static str>)
    requires
        decodable(bytes@),
    ensures
        r@.map_values(|n: &'static str| n@) == valid_candidates(bytes@, 5),
{
    let mut r: Vec<&'static str> = Vec::new();
    let mut i: usize = 0;
    while i < 5
        invariant
            i <= 5,
            decodable(bytes@),
            r@.map_values(|n: &'static str| n@) == valid_candidates(bytes@, i as int),
        decreases 5 - i,
    {
        let which = if i == 0 {
            Known::Utf8
        } else if i == 1 {
            Known::Windows1252
        } else if i == 2 {
            Known::Iso8859_15
        } else if i == 3 {
            Known::Utf16Le
        } else {
            Known::Utf16Be
        };
        let c = known(which);
        if is_valid_as(bytes, &c) {
            r.push(c.name());
        }
        assert(r@.map_values(|n: &'static str| n@) =~= valid_candidates(bytes@, i + 1));
        i = i + 1;
    }
    r
}

/// Whether `bytes` decode without error in `encoding`.
pub fn is_valid_as(bytes: &[u8], encoding: &Charset) -> (r: bool)
    requires
        decodable(bytes@),
    ensures
        r == decodes_cleanly(bytes@, encoding@),
        encoding@ == utf8_name() ==> r == valid_utf8(bytes@),
{
    decodes_strictly(encoding, bytes)
}

} // verus!
