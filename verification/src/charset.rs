//! Encodings of the Encoding Standard, as implemented by `encoding_rs`,
//! together with the decoding operations the library needs from it.

use encoding_rs::Encoding;
use vstd::prelude::*;
use vstd::utf8::valid_utf8;

verus! {

#[verifier::external_type_specification]
#[verifier::external_body]
pub struct ExEncoding(Encoding);

/// An encoding of the Encoding Standard together with its canonical name.
///
/// Values of this type are only made by the trusted functions of this
/// crate that obtain an `encoding_rs` encoding, each of which pairs it with
/// the name that `Encoding::name` gives it; encoding names are unique, so
/// the name (the view) identifies the encoding. The `encoding_rs` value
/// itself is opaque to the verifier, so that pairing is not a stated clause:
/// it holds because the fields are private to this crate and only those
/// functions fill them.
#[derive(Clone, Copy)]
pub struct Charset {
    pub(crate) name: &'static str,
    pub(crate) enc: &'static Encoding,
}

impl View for Charset {
    type V = Seq<char>;

    closed spec fn view(&self) -> Seq<char> {
        self.name@
    }
}

impl Charset {
    /// The canonical name of the encoding.
    pub fn name(&self) -> (r: &'static str)
        ensures
            r@ == self@,
    {
        self.name
    }
}

/// The longest input that the decoding operations accept: beyond it the
/// buffer size that `encoding_rs` computes for the output could overflow.
pub open spec fn decodable(bytes: Seq<u8>) -> bool {
    bytes.len() <= usize::MAX / 8
}

/// The encodings that the library names itself.
#[derive(Clone, Copy, PartialEq, Eq, Structural)]
pub enum Known {
    Utf8,
    Windows1252,
    Iso8859_15,
    Utf16Le,
    Utf16Be,
}

impl Known {
    /// The canonical name of the encoding.
    pub open spec fn spec_name(self) -> Seq<char> {
        match self {
            Known::Utf8 => "UTF-8"@,
            Known::Windows1252 => "windows-1252"@,
            Known::Iso8859_15 => "ISO-8859-15"@,
            Known::Utf16Le => "UTF-16LE"@,
            Known::Utf16Be => "UTF-16BE"@,
        }
    }
}

/// The name of UTF-8.
pub open spec fn utf8_name() -> Seq<char> {
    Known::Utf8.spec_name()
}

/// The name of windows-1252.
pub open spec fn windows_1252_name() -> Seq<char> {
    Known::Windows1252.spec_name()
}

/// What `Encoding::for_label` gives for a label: the name of the encoding
/// that the label denotes, if any.
pub uninterp spec fn label_encoding(label: Seq<u8>) -> Option<Seq<char>>;

/// What `decode_without_bom_handling_and_without_replacement` gives:
/// the decoded text, or `None` where the bytes hold a malformed sequence.
pub uninterp spec fn strict_decode(encoding: Seq<char>, bytes: Seq<u8>) -> Option<Seq<char>>;

/// What `decode_without_bom_handling` gives: the decoded text with each
/// malformed sequence replaced by U+FFFD, and whether there was any.
pub uninterp spec fn replacing_decode(encoding: Seq<char>, bytes: Seq<u8>) -> (Seq<char>, bool);

/// One of the encodings the library names, from the `encoding_rs` statics
/// `UTF_8`, `WINDOWS_1252`, `ISO_8859_15`, `UTF_16LE` and `UTF_16BE`,
/// paired with `Encoding::name`. The contract claims the names that
/// `encoding_rs` gives these encodings.
#[verifier::external_body]
pub(crate) fn known(which: Known) -> (c: Charset)
    ensures
        c@ == which.spec_name(),
{
    let enc = match which {
        Known::Utf8 => encoding_rs::UTF_8,
        Known::Windows1252 => encoding_rs::WINDOWS_1252,
        Known::Iso8859_15 => encoding_rs::ISO_8859_15,
        Known::Utf16Le => encoding_rs::UTF_16LE,
        Known::Utf16Be => encoding_rs::UTF_16BE,
    };
    Charset { name: enc.name(), enc }
}

/// `Encoding::for_label`: the encoding that a label denotes (after the
/// Encoding Standard's trimming and ASCII lower-casing). The contract claims
/// only that the result is the one `label_encoding` names.
#[verifier::external_body]
pub(crate) fn charset_for_label(label: &[u8]) -> (r: Option<Charset>)
    ensures
        r.is_some() == label_encoding(label@).is_some(),
        r matches Some(c) ==> label_encoding(label@) == Some(c@),
{
    match Encoding::for_label(label) {
        Some(enc) => Some(Charset { name: enc.name(), enc }),
        None => None,
    }
}

/// `Encoding::decode_without_bom_handling_and_without_replacement`, reduced
/// to whether it succeeded. The contract claims that the answer is whether
/// `strict_decode` gives some text, and, as the `encoding_rs` documentation
/// states (on UTF-8 the method is the Encoding Standard's "UTF-8 decode
/// without BOM or fail"), that for UTF-8 it succeeds exactly on valid UTF-8.
#[verifier::external_body]
pub(crate) fn decodes_strictly(c: &Charset, bytes: &[u8]) -> (ok: bool)
    requires
        decodable(bytes@),
    ensures
        ok == strict_decode(c@, bytes@).is_some(),
        c@ == utf8_name() ==> ok == valid_utf8(bytes@),
{
    c.enc.decode_without_bom_handling_and_without_replacement(bytes).is_some()
}

/// `Encoding::decode_without_bom_handling`, with the text as characters.
/// The contract claims that the result is the one `replacing_decode` names,
/// and, as the `encoding_rs` documentation states, that the flag reports
/// malformed input exactly where the strict decoding fails.
#[verifier::external_body]
pub(crate) fn decode_replacing(c: &Charset, bytes: &[u8]) -> (r: (Vec<char>, bool))
    requires
        decodable(bytes@),
    ensures
        (r.0@, r.1) == replacing_decode(c@, bytes@),
        r.1 == strict_decode(c@, bytes@).is_none(),
{
    let (text, had_errors) = c.enc.decode_without_bom_handling(bytes);
    (text.chars().collect(), had_errors)
}

} // verus!
