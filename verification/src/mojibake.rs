//! Finding garbled text: decoding errors, UTF-8 read as Latin-1, and
//! Latin-1 read as UTF-8; and telling binary files from text.

use core::str::Utf8Error;
use vstd::prelude::*;
use vstd::utf8::*;

use crate::charset::{
    decodable, decode_replacing, known, utf8_name, windows_1252_name, Charset, Known,
};
use crate::detect::{
    count_replacements, count_where, decodes_cleanly, is_valid_as, replacement_count, Detection,
};
use crate::text::{decimal, hex2, push_char, push_decimal, push_hex2, push_str, same_text};

verus! {

#[verifier::external_type_specification]
#[verifier::external_body]
pub struct ExUtf8Error(Utf8Error);

/// `core::str::from_utf8`: as the standard library documents, it succeeds
/// exactly on valid UTF-8, and then gives the text that the bytes encode.
pub assume_specification<'a>[ core::str::from_utf8 ](v: &'a [u8]) -> (r: Result<&'a str, Utf8Error>)
    ensures
        r.is_ok() == valid_utf8(v@),
        r matches Ok(s) ==> s@ == decode_utf8(v@),
;

/* ---------- Warnings ---------- */

/// A finding about the text of a file.
pub struct Warning {
    pub offset: usize,
    pub length: usize,
    pub warning_type: String,
    pub message: String,
    pub bytes: Vec<u8>,
    pub suggested_char: Option<String>,
    pub line: usize,
}

/// The contents of a warning as values.
pub ghost struct WarningView {
    pub offset: usize,
    pub length: usize,
    pub kind: Seq<char>,
    pub message: Seq<char>,
    pub bytes: Seq<u8>,
    pub suggested: Option<Seq<char>>,
    pub line: usize,
}

impl View for Warning {
    type V = WarningView;

    open spec fn view(&self) -> WarningView {
        WarningView {
            offset: self.offset,
            length: self.length,
            kind: self.warning_type@,
            message: self.message@,
            bytes: self.bytes@,
            suggested: match self.suggested_char {
                Some(s) => Some(s@),
                None => None,
            },
            line: self.line,
        }
    }
}

/// The contents of a sequence of warnings.
pub open spec fn warnings_view(ws: Seq<Warning>) -> Seq<WarningView> {
    ws.map_values(|w: Warning| w@)
}

pub(crate) fn push_warning(warnings: &mut Vec<Warning>, w: Warning)
    ensures
        warnings_view(final(warnings)@) == warnings_view(old(warnings)@).push(w@),
{
    let ghost before = warnings@;
    warnings.push(w);
    assert(warnings_view(warnings@) =~= warnings_view(before).push(w@));
}


/* ---------- Lines ---------- */

/// The number of line feeds in `bytes`.
pub open spec fn newline_count(bytes: Seq<u8>) -> nat
    decreases bytes.len(),
{
    if bytes.len() == 0 {
        0
    } else {
        newline_count(bytes.drop_last()) + if bytes.last() == 10 { 1nat } else { 0nat }
    }
}

/// The line (counting from 1) that holds the byte at `offset`: one more
/// than the number of line feeds before it.
pub open spec fn line_number(bytes: Seq<u8>, offset: int) -> int {
    1 + newline_count(bytes.take(offset)) as int
}

/// The offsets at which lines start: 0, and one past each line feed.
pub open spec fn line_starts(bytes: Seq<u8>) -> Seq<usize>
    decreases bytes.len(),
{
    if bytes.len() == 0 {
        seq![0usize]
    } else if bytes.last() == 10 {
        line_starts(bytes.drop_last()).push(bytes.len() as usize)
    } else {
        line_starts(bytes.drop_last())
    }
}

/// The number (counting from 1) of the last line start in `starts` that is
/// at or before `offset`, or 1 where there is none.
pub open spec fn line_of_offset(offset: usize, starts: Seq<usize>) -> int
    decreases starts.len(),
{
    if starts.len() == 0 {
        1
    } else if offset >= starts.last() {
        starts.len() as int
    } else {
        line_of_offset(offset, starts.drop_last())
    }
}

fn build_byte_line_map(bytes: &[u8]) -> (map: Vec<usize>)
    ensures
        map@ == line_starts(bytes@),
{
    let mut map: Vec<usize> = Vec::new();
    map.push(0);
    let mut i: usize = 0;
    assert(bytes@.take(0) =~= Seq::<u8>::empty());
    while i < bytes.len()
        invariant
            i <= bytes@.len(),
            map@ == line_starts(bytes@.take(i as int)),
        decreases bytes@.len() - i,
    {
        assert(bytes@.take(i + 1).drop_last() =~= bytes@.take(i as int));
        if bytes[i] == 10 {
            map.push(i + 1);
        }
        i = i + 1;
    }
    assert(bytes@.take(i as int) =~= bytes@);
    map
}

fn byte_offset_to_line(byte_offset: usize, line_map: &[usize]) -> (line: usize)
    ensures
        line == line_of_offset(byte_offset, line_map@),
{
    let mut j: usize = line_map.len();
    assert(line_map@.take(j as int) =~= line_map@);
    while j > 0
        invariant
            j <= line_map@.len(),
            line_of_offset(byte_offset, line_map@) == line_of_offset(
                byte_offset,
                line_map@.take(j as int),
            ),
        decreases j,
    {
        assert(line_map@.take(j as int).drop_last() =~= line_map@.take(j - 1));
        if byte_offset >= line_map[j - 1] {
            return j;
        }
        j = j - 1;
    }
    1
}

proof fn lemma_line_starts_shape(bytes: Seq<u8>)
    requires
        bytes.len() <= usize::MAX,
    ensures
        line_starts(bytes).len() == 1 + newline_count(bytes),
        forall|k: int| 0 <= k < line_starts(bytes).len() ==> #[trigger] line_starts(bytes)[k] <= bytes.len(),
    decreases bytes.len(),
{
    if bytes.len() > 0 {
        lemma_line_starts_shape(bytes.drop_last());
    }
}

proof fn lemma_line_of_offset_below(offset: usize, bytes: Seq<u8>)
    requires
        bytes.len() <= usize::MAX,
        offset >= bytes.len(),
    ensures
        line_of_offset(offset, line_starts(bytes)) == line_starts(bytes).len(),
{
    lemma_line_starts_shape(bytes);
    let starts = line_starts(bytes);
    assert(starts[starts.len() - 1] <= bytes.len());
}

/// The line that the line map gives an offset is one more than the number
/// of line feeds before the offset.
pub proof fn lemma_line_of_offset(bytes: Seq<u8>, offset: usize)
    requires
        bytes.len() <= usize::MAX,
        offset <= bytes.len(),
    ensures
        line_of_offset(offset, line_starts(bytes)) == line_number(bytes, offset as int),
    decreases bytes.len(),
{
    if bytes.len() == 0 {
        assert(bytes.take(0) =~= bytes);
    } else {
        let prev = bytes.drop_last();
        let starts = line_starts(prev);
        lemma_line_starts_shape(prev);
        if bytes.last() == 10 {
            assert(starts.push(bytes.len() as usize).drop_last() =~= starts);
        }
        if offset < bytes.len() {
            lemma_line_of_offset(prev, offset);
            assert(prev.take(offset as int) =~= bytes.take(offset as int));
        } else {
            assert(bytes.take(offset as int) =~= bytes);
            lemma_line_of_offset_below(offset, prev);
        }
    }
}

/* ---------- UTF-8 sequences ---------- */

/// Whether `b` may start a multi-byte UTF-8 sequence (0xC2 to 0xF4).
pub open spec fn spec_valid_utf8_start(b: u8) -> bool {
    0xC2 <= b <= 0xF4
}

/// The length of the UTF-8 sequence that a leading byte announces
/// (1 where it announces none).
pub open spec fn spec_sequence_length(b: u8) -> int {
    if 0xC0 <= b <= 0xDF {
        2
    } else if 0xE0 <= b <= 0xEF {
        3
    } else if 0xF0 <= b <= 0xF7 {
        4
    } else {
        1
    }
}

/// Whether the `len` bytes of `bytes` from `start` are one well-formed
/// UTF-8 sequence of two to four bytes: continuation bytes after the first,
/// and no overlong form, surrogate or value beyond U+10FFFF.
pub open spec fn spec_valid_sequence(bytes: Seq<u8>, start: int, len: int) -> bool {
    &&& forall|k: int|
        start < k < start + len ==> k < bytes.len() && is_continuation_byte(#[trigger] bytes[k])
    &&& if len == 2 {
        !(bytes[start] == 0xC0 || bytes[start] == 0xC1)
    } else if len == 3 {
        !(bytes[start] == 0xE0 && bytes[start + 1] < 0xA0) && !(bytes[start] == 0xED && bytes[start
            + 1] > 0x9F)
    } else if len == 4 {
        !(bytes[start] == 0xF0 && bytes[start + 1] < 0x90) && !(bytes[start] == 0xF4 && bytes[start
            + 1] > 0x8F)
    } else {
        false
    }
}

/// The bytes of `bytes` that do not begin a well-formed UTF-8 sequence, with
/// their offsets, found by scanning from offset `i` and stepping over each
/// well-formed sequence whole.
pub open spec fn latin1_positions_from(bytes: Seq<u8>, i: int) -> Seq<(usize, u8)>
    decreases bytes.len() - i,
{
    if i < 0 || i >= bytes.len() {
        seq![]
    } else {
        let rest = bytes.subrange(i, bytes.len() as int);
        if valid_first_scalar(rest) {
            latin1_positions_from(bytes, i + length_of_first_scalar(rest))
        } else {
            seq![(i as usize, bytes[i])] + latin1_positions_from(bytes, i + 1)
        }
    }
}

/// The bytes of `bytes` that do not begin a well-formed UTF-8 sequence,
/// scanning from the start.
pub open spec fn latin1_positions(bytes: Seq<u8>) -> Seq<(usize, u8)> {
    latin1_positions_from(bytes, 0)
}

/// The checks that `find_latin1_bytes` makes at an offset decide exactly
/// whether a well-formed UTF-8 sequence starts there, and how long it is.
proof fn lemma_scan_step(bytes: Seq<u8>, i: int)
    requires
        0 <= i < bytes.len(),
    ensures
        ({
            let b = bytes[i];
            let rest = bytes.subrange(i, bytes.len() as int);
            let len = spec_sequence_length(b);
            &&& b < 0x80 ==> valid_first_scalar(rest) && length_of_first_scalar(rest) == 1
            &&& (b >= 0x80 && spec_valid_utf8_start(b) && i + len <= bytes.len()
                && spec_valid_sequence(bytes, i, len)) ==> valid_first_scalar(rest)
                && length_of_first_scalar(rest) == len
            &&& (b >= 0x80 && !(spec_valid_utf8_start(b) && i + len <= bytes.len()
                && spec_valid_sequence(bytes, i, len))) ==> !valid_first_scalar(rest)
        }),
{
    let b = bytes[i];
    let rest = bytes.subrange(i, bytes.len() as int);
    assert(rest[0] == b);
    if rest.len() >= 2 {
        assert(rest[1] == bytes[i + 1]);
    }
    if rest.len() >= 3 {
        assert(rest[2] == bytes[i + 2]);
    }
    if rest.len() >= 4 {
        assert(rest[3] == bytes[i + 3]);
    }
    if b < 0x80 {
        assert((b & 0x7F) as u32 <= 0x7F) by (bit_vector);
    } else if 0xC0 <= b <= 0xDF {
        if rest.len() >= 2 && is_continuation_byte(rest[1]) {
            let c = rest[1];
            assert(0xC0 <= b <= 0xDF && 0x80 <= c <= 0xBF ==> ((((b & 0x1F) as u32) << 6) | ((
            c & 0x3F) as u32) >= 0x80 <==> b >= 0xC2)) by (bit_vector);
            assert(0xC0 <= b <= 0xDF && 0x80 <= c <= 0xBF ==> ((((b & 0x1F) as u32) << 6) | ((
            c & 0x3F) as u32) <= 0x7FF)) by (bit_vector);
            if spec_valid_utf8_start(b) && i + 2 <= bytes.len() {
                assert(spec_valid_sequence(bytes, i, 2) ==> is_continuation_byte(bytes[i + 1]));
            }
        } else {
            if spec_valid_sequence(bytes, i, 2) {
                assert(is_continuation_byte(bytes[i + 1]));
            }
        }
    } else if 0xE0 <= b <= 0xEF {
        if rest.len() >= 3 && is_continuation_byte(rest[1]) && is_continuation_byte(rest[2]) {
            let c1 = rest[1];
            let c2 = rest[2];
            assert(0xE0 <= b <= 0xEF && 0x80 <= c1 <= 0xBF && 0x80 <= c2 <= 0xBF ==> (((((b
            & 0x0F) as u32) << 12) | (((c1 & 0x3F) as u32) << 6) | ((c2 & 0x3F) as u32))
                >= 0x800 <==> !(b == 0xE0 && c1 < 0xA0))) by (bit_vector);
            assert(0xE0 <= b <= 0xEF && 0x80 <= c1 <= 0xBF && 0x80 <= c2 <= 0xBF ==> (!(0xD800
                <= ((((b & 0x0F) as u32) << 12) | (((c1 & 0x3F) as u32) << 6) | ((c2
                & 0x3F) as u32)) <= 0xDFFF) <==> !(b == 0xED && c1 > 0x9F))) by (bit_vector);
            assert(0xE0 <= b <= 0xEF && 0x80 <= c1 <= 0xBF && 0x80 <= c2 <= 0xBF ==> (((b
            & 0x0F) as u32) << 12) | (((c1 & 0x3F) as u32) << 6) | ((c2 & 0x3F) as u32)
                <= 0xFFFF) by (bit_vector);
            if spec_valid_utf8_start(b) && i + 3 <= bytes.len() && spec_valid_sequence(
                bytes,
                i,
                3,
            ) {
                assert(is_continuation_byte(bytes[i + 1]));
                assert(is_continuation_byte(bytes[i + 2]));
            }
        } else {
            if spec_valid_sequence(bytes, i, 3) {
                assert(is_continuation_byte(bytes[i + 1]));
                assert(is_continuation_byte(bytes[i + 2]));
            }
        }
    } else if 0xF0 <= b <= 0xF7 {
        if rest.len() >= 4 && is_continuation_byte(rest[1]) && is_continuation_byte(rest[2])
            && is_continuation_byte(rest[3]) {
            let c1 = rest[1];
            let c2 = rest[2];
            let c3 = rest[3];
            assert(0xF0 <= b <= 0xF7 && 0x80 <= c1 <= 0xBF && 0x80 <= c2 <= 0xBF && 0x80 <= c3
                <= 0xBF ==> ((0x10000 <= ((((b & 0x07) as u32) << 18) | (((c1 & 0x3F) as u32)
                << 12) | (((c2 & 0x3F) as u32) << 6) | ((c3 & 0x3F) as u32)) <= 0x10ffff) <==> (b
                <= 0xF4 && !(b == 0xF0 && c1 < 0x90) && !(b == 0xF4 && c1 > 0x8F))))
                by (bit_vector);
            if spec_valid_utf8_start(b) && i + 4 <= bytes.len() && spec_valid_sequence(
                bytes,
                i,
                4,
            ) {
                assert(is_continuation_byte(bytes[i + 1]));
                assert(is_continuation_byte(bytes[i + 2]));
                assert(is_continuation_byte(bytes[i + 3]));
            }
        } else {
            if spec_valid_utf8_start(b) && spec_valid_sequence(bytes, i, 4) {
                assert(is_continuation_byte(bytes[i + 1]));
                assert(is_continuation_byte(bytes[i + 2]));
                assert(is_continuation_byte(bytes[i + 3]));
            }
        }
    }
}

/// The check of a multi-byte sequence succeeds exactly when the sequence
/// that its leading byte announces lies in the buffer and is valid UTF-8 on
/// its own (so it is no overlong form, surrogate or value beyond U+10FFFF).
pub proof fn lemma_sequence_check_is_utf8(bytes: Seq<u8>, start: int)
    requires
        0 <= start < bytes.len(),
        spec_valid_utf8_start(bytes[start]),
    ensures
        ({
            let len = spec_sequence_length(bytes[start]);
            spec_valid_sequence(bytes, start, len) <==> start + len <= bytes.len() && valid_utf8(
                bytes.subrange(start, start + len),
            )
        }),
{
    let len = spec_sequence_length(bytes[start]);
    if start + len <= bytes.len() {
        let sub = bytes.subrange(start, start + len);
        lemma_scan_step(sub, 0);
        assert(sub.subrange(0, sub.len() as int) =~= sub);
        assert(sub[0] == bytes[start]);
        if spec_valid_sequence(bytes, start, len) {
            assert forall|k: int| 0 < k < 0 + len implies k < sub.len() && is_continuation_byte(
                #[trigger] sub[k],
            ) by {
                assert(sub[k] == bytes[start + k]);
            }
            if len >= 2 {
                assert(sub[1] == bytes[start + 1]);
            }
            assert(spec_valid_sequence(sub, 0, len));
        }
        if spec_valid_sequence(sub, 0, len) {
            assert forall|k: int| start < k < start + len implies k < bytes.len()
                && is_continuation_byte(#[trigger] bytes[k]) by {
                assert(sub[k - start] == bytes[k]);
            }
            if len >= 2 {
                assert(sub[1] == bytes[start + 1]);
            }
            assert(spec_valid_sequence(bytes, start, len));
        }
        reveal_with_fuel(valid_utf8, 2);
        if valid_first_scalar(sub) && length_of_first_scalar(sub) == len {
            assert(pop_first_scalar(sub) =~= Seq::<u8>::empty());
        }
    } else {
        let k: int = bytes.len() as int;
        let b: u8 = bytes[k];
        assert(start < k < start + len && !(k < bytes.len()) && b == bytes[k]);
    }
}

fn is_valid_utf8_start(b: u8) -> (r: bool)
    ensures
        r == spec_valid_utf8_start(b),
{
    0xC2 <= b && b <= 0xF4
}

fn utf8_sequence_length(b: u8) -> (r: usize)
    ensures
        r == spec_sequence_length(b),
{
    assert((b & 0xE0 == 0xC0) == (0xC0 <= b <= 0xDF)) by (bit_vector);
    assert((b & 0xF0 == 0xE0) == (0xE0 <= b <= 0xEF)) by (bit_vector);
    assert((b & 0xF8 == 0xF0) == (0xF0 <= b <= 0xF7)) by (bit_vector);
    if b & 0xE0 == 0xC0 {
        2
    } else if b & 0xF0 == 0xE0 {
        3
    } else if b & 0xF8 == 0xF0 {
        4
    } else {
        1
    }
}

fn is_valid_utf8_sequence(bytes: &[u8], start: usize, len: usize) -> (r: bool)
    requires
        start + len <= usize::MAX,
    ensures
        r == spec_valid_sequence(bytes@, start as int, len as int),
{
    let n = bytes.len();
    let mut j: usize = 1;
    while j < len
        invariant
            n == bytes@.len(),
            1 <= j,
            j <= len || len < 1,
            start + len <= usize::MAX,
            j == 1 || start + j <= bytes@.len(),
            forall|k: int|
                start < k < start + j ==> k < bytes@.len() && is_continuation_byte(
                    #[trigger] bytes@[k],
                ),
        decreases len - j,
    {
        if start + j >= n {
            assert(!spec_valid_sequence(bytes@, start as int, len as int)) by {
                let k: int = start + j;
                let b: u8 = bytes@[k];
                assert(start < k < start + len && !(k < bytes@.len()) && b == bytes@[k]);
            }
            return false;
        }
        let c = bytes[start + j];
        assert((c & 0xC0 != 0x80) == !(0x80 <= c <= 0xBF)) by (bit_vector);
        if c & 0xC0 != 0x80 {
            assert(!is_continuation_byte(bytes@[start + j]));
            return false;
        }
        j = j + 1;
    }
    if len == 2 {
        let b1 = bytes[start];
        !(b1 == 0xC0 || b1 == 0xC1)
    } else if len == 3 {
        let b1 = bytes[start];
        let b2 = bytes[start + 1];
        !(b1 == 0xE0 && b2 < 0xA0) && !(b1 == 0xED && b2 > 0x9F)
    } else if len == 4 {
        let b1 = bytes[start];
        let b2 = bytes[start + 1];
        !(b1 == 0xF0 && b2 < 0x90) && !(b1 == 0xF4 && b2 > 0x8F)
    } else {
        false
    }
}

/// The bytes that do not begin a well-formed UTF-8 sequence, with their
/// offsets, in increasing order of offset.
pub fn find_latin1_bytes(bytes: &[u8]) -> (r: Vec<(usize, u8)>)
    ensures
        r@ == latin1_positions(bytes@),
{
    let mut positions: Vec<(usize, u8)> = Vec::new();
    let mut i: usize = 0;
    while i < bytes.len()
        invariant
            i <= bytes@.len(),
            positions@ + latin1_positions_from(bytes@, i as int) == latin1_positions(bytes@),
        decreases bytes@.len() - i,
    {
        let b = bytes[i];
        proof {
            lemma_scan_step(bytes@, i as int);
        }
        let ghost rest = bytes@.subrange(i as int, bytes@.len() as int);
        if b < 0x80 {
            i = i + 1;
            continue;
        }
        if is_valid_utf8_start(b) {
            let seq_len = utf8_sequence_length(b);
            if seq_len <= bytes.len() - i && is_valid_utf8_sequence(bytes, i, seq_len) {
                i = i + seq_len;
                continue;
            }
        }
        let ghost before = positions@;
        positions.push((i, b));
        assert(positions@ + latin1_positions_from(bytes@, i + 1) =~= before
            + latin1_positions_from(bytes@, i as int));
        i = i + 1;
    }
    assert(positions@ + latin1_positions_from(bytes@, i as int) =~= positions@);
    positions
}

/// A byte buffer holds a byte that does not begin a well-formed UTF-8
/// sequence exactly when it is not valid UTF-8: the scan for Latin-1 bytes
/// finds nothing in valid UTF-8 and something in everything else.
pub proof fn lemma_no_latin1_bytes_iff_utf8(bytes: Seq<u8>)
    ensures
        latin1_positions(bytes).len() == 0 <==> valid_utf8(bytes),
{
    lemma_positions_from_empty_iff(bytes, 0);
    assert(bytes.subrange(0, bytes.len() as int) =~= bytes);
}

proof fn lemma_positions_from_empty_iff(bytes: Seq<u8>, i: int)
    requires
        0 <= i <= bytes.len(),
    ensures
        latin1_positions_from(bytes, i).len() == 0 <==> valid_utf8(
            bytes.subrange(i, bytes.len() as int),
        ),
    decreases bytes.len() - i,
{
    let rest = bytes.subrange(i, bytes.len() as int);
    if i < bytes.len() {
        if valid_first_scalar(rest) {
            let k = length_of_first_scalar(rest);
            lemma_positions_from_empty_iff(bytes, i + k);
            assert(pop_first_scalar(rest) =~= bytes.subrange(i + k, bytes.len() as int));
        } else {
        }
    } else {
        assert(rest.len() == 0);
    }
}

/* ---------- The checks ---------- */

/// The kind of a warning about U+FFFD in the decoded text.
pub open spec fn kind_replacement() -> Seq<char> {
    "replacement_char"@
}

/// The kind of a warning about UTF-8 read as Latin-1.
pub open spec fn kind_utf8_as_latin1() -> Seq<char> {
    "utf8_as_latin1"@
}

/// The kind of a warning about Latin-1 read as UTF-8.
pub open spec fn kind_latin1_as_utf8() -> Seq<char> {
    "latin1_as_utf8"@
}

/// The message of a warning about `count` replacement characters.
pub open spec fn replacement_message(count: nat) -> Seq<char> {
    decimal(count) + " replacement character(s) U+FFFD — decoding errors in this file"@
}

/// The warning, if any, about replacement characters in the decoding of
/// `bytes` in `encoding`: there is one when decoding met malformed input and
/// produced some U+FFFD.
pub open spec fn replacement_warnings(bytes: Seq<u8>, encoding: Seq<char>) -> Seq<WarningView> {
    let count = replacement_count(bytes, encoding);
    if count > 0 {
        seq![
            WarningView {
                offset: 0,
                length: 0,
                kind: kind_replacement(),
                message: replacement_message(count),
                bytes: seq![],
                suggested: None,
                line: 1,
            },
        ]
    } else {
        seq![]
    }
}

/// The character that the two-byte UTF-8 sequence `b0 b1` encodes.
pub open spec fn two_byte_char(b0: u8, b1: u8) -> char {
    codepoint_width_2(b0, b1) as char
}

/// The message of a warning about the byte pair at `i`, read as Latin-1.
pub open spec fn utf8_as_latin1_message(b0: u8, b1: u8) -> Seq<char> {
    "Bytes 0x"@ + hex2(b0) + " 0x"@ + hex2(b1)
        + " look like UTF-8→Latin-1 mojibake — \""@ + seq![two_byte_char(b0, b1)]
        + "\" read as \""@ + seq![b0 as char, b1 as char] + "\""@
}

/// The warning about the UTF-8 sequence of a Latin-1 letter at `i`.
pub open spec fn utf8_as_latin1_warning(bytes: Seq<u8>, i: int) -> WarningView {
    let b0 = bytes[i];
    let b1 = bytes[i + 1];
    WarningView {
        offset: i as usize,
        length: 2,
        kind: kind_utf8_as_latin1(),
        message: utf8_as_latin1_message(b0, b1),
        bytes: seq![b0, b1],
        suggested: Some(seq![two_byte_char(b0, b1)]),
        line: line_number(bytes, i) as usize,
    }
}

/// Whether a UTF-8 sequence of a letter of Latin-1 (U+00C0 to U+00FF)
/// starts at `i`.
pub open spec fn latin1_letter_pair_at(bytes: Seq<u8>, i: int) -> bool {
    bytes[i] == 0xC3 && 0x80 <= bytes[i + 1] <= 0xBF
}

/// The warnings about UTF-8 sequences of Latin-1 letters from offset `i`
/// on, found scanning left to right without overlap.
pub open spec fn utf8_as_latin1_from(bytes: Seq<u8>, i: int) -> Seq<WarningView>
    decreases bytes.len() - i,
{
    if i < 0 || i + 1 >= bytes.len() {
        seq![]
    } else if latin1_letter_pair_at(bytes, i) {
        seq![utf8_as_latin1_warning(bytes, i)] + utf8_as_latin1_from(bytes, i + 2)
    } else {
        utf8_as_latin1_from(bytes, i + 1)
    }
}

/// The warnings about UTF-8 read as Latin-1: none when the encoding is
/// UTF-8 itself.
pub open spec fn utf8_as_latin1_warnings(bytes: Seq<u8>, encoding: Seq<char>) -> Seq<
    WarningView,
> {
    if encoding == utf8_name() {
        seq![]
    } else {
        utf8_as_latin1_from(bytes, 0)
    }
}

/// Bytes that in Latin-1 are letters common in Nordic and Western European
/// text.
pub open spec fn is_latin1_letter(b: u8) -> bool {
    ||| b == 0xE5
    ||| b == 0xE4
    ||| b == 0xF6
    ||| b == 0xC5
    ||| b == 0xC4
    ||| b == 0xD6
    ||| b == 0xE6
    ||| b == 0xF8
    ||| b == 0xC6
    ||| b == 0xD8
    ||| b == 0xE9
    ||| b == 0xE8
    ||| b == 0xFC
    ||| b == 0xF1
    ||| b == 0xE0
    ||| b == 0xF5
}

/// Whether `bytes` hold such a letter byte.
pub open spec fn has_latin1_letter(bytes: Seq<u8>) -> bool {
    exists|i: int| 0 <= i < bytes.len() && is_latin1_letter(#[trigger] bytes[i])
}

/// The message of a warning about a lone Latin-1 byte.
pub open spec fn latin1_byte_message(b: u8) -> Seq<char> {
    "Byte 0x"@ + hex2(b) + " is invalid UTF-8 but valid Latin-1 \""@ + seq![b as char]
        + "\" — possible Latin-1→UTF-8 mojibake"@
}

/// The warning about a byte that begins no UTF-8 sequence.
pub open spec fn latin1_byte_warning(bytes: Seq<u8>, p: (usize, u8)) -> WarningView {
    WarningView {
        offset: p.0,
        length: 1,
        kind: kind_latin1_as_utf8(),
        message: latin1_byte_message(p.1),
        bytes: seq![p.1],
        suggested: Some(seq![p.1 as char]),
        line: line_number(bytes, p.0 as int) as usize,
    }
}

/// The message of the warning that many bytes are Latin-1.
pub open spec fn latin1_summary_message(count: nat) -> Seq<char> {
    decimal(count)
        + " bytes are valid Latin-1 but invalid UTF-8 — file may actually be Latin-1 encoded"@
}

/// The warning that many bytes are Latin-1, placed at the first of them.
pub open spec fn latin1_summary_warning(bytes: Seq<u8>, positions: Seq<(usize, u8)>) -> WarningView {
    WarningView {
        offset: positions[0].0,
        length: positions.len() as usize,
        kind: kind_latin1_as_utf8(),
        message: latin1_summary_message(positions.len()),
        bytes: seq![],
        suggested: None,
        line: line_number(bytes, positions[0].0 as int) as usize,
    }
}

/// The warnings about Latin-1 read as UTF-8. They come only where the
/// encoding is UTF-8, the bytes are valid windows-1252, and the bytes are
/// not valid UTF-8 or hold a Latin-1 letter byte: one per byte that begins
/// no UTF-8 sequence, and a summary where there are more than two.
pub open spec fn latin1_as_utf8_warnings(bytes: Seq<u8>, encoding: Seq<char>) -> Seq<WarningView> {
    if encoding == utf8_name() && decodes_cleanly(bytes, windows_1252_name()) && (!valid_utf8(
        bytes,
    ) || has_latin1_letter(bytes)) {
        let positions = latin1_positions(bytes);
        positions.map_values(|p: (usize, u8)| latin1_byte_warning(bytes, p)) + if positions.len()
            > 2 {
            seq![latin1_summary_warning(bytes, positions)]
        } else {
            seq![]
        }
    } else {
        seq![]
    }
}

/// All warnings about the text of `bytes` decoded in `encoding`: replacement
/// characters, then UTF-8 read as Latin-1, then Latin-1 read as UTF-8.
pub open spec fn scan_warnings(bytes: Seq<u8>, encoding: Seq<char>) -> Seq<WarningView> {
    replacement_warnings(bytes, encoding) + utf8_as_latin1_warnings(bytes, encoding)
        + latin1_as_utf8_warnings(bytes, encoding)
}

/// Scans `bytes`, decoded in the detected encoding, for garbled text.
pub fn scan(bytes: &[u8], detected: &Detection) -> (r: Vec<Warning>)
    requires
        decodable(bytes@),
    ensures
        warnings_view(r@) == scan_warnings(bytes@, detected.encoding@),
{
    let mut warnings: Vec<Warning> = Vec::new();
    let encoding = &detected.encoding;
    let line_map = build_byte_line_map(bytes);
    check_replacement_chars(bytes, encoding, line_map.as_slice(), &mut warnings);
    check_utf8_as_latin1(bytes, encoding, line_map.as_slice(), &mut warnings);
    check_latin1_as_utf8(bytes, encoding, line_map.as_slice(), &mut warnings);
    assert(warnings_view(warnings@) =~= scan_warnings(bytes@, detected.encoding@));
    warnings
}

fn check_replacement_chars(
    bytes: &[u8],
    encoding: &Charset,
    _line_map: &[usize],
    warnings: &mut Vec<Warning>,
)
    requires
        decodable(bytes@),
    ensures
        warnings_view(final(warnings)@) == warnings_view(old(warnings)@) + replacement_warnings(
            bytes@,
            encoding@,
        ),
{
    let (decoded, had_errors) = decode_replacing(encoding, bytes);
    if !had_errors {
        assert(warnings_view(warnings@) =~= warnings_view(warnings@) + seq![]);
        return;
    }
    let count = count_replacements(&decoded);
    if count > 0 {
        let mut message = String::new();
        push_decimal(&mut message, count);
        push_str(&mut message, " replacement character(s) U+FFFD — decoding errors in this file");
        push_warning(
            warnings,
            Warning {
                offset: 0,
                length: 0,
                warning_type: "replacement_char".to_owned(),
                message,
                bytes: Vec::new(),
                suggested_char: None,
                line: 1,
            },
        );
    }
    assert(warnings_view(warnings@) =~= warnings_view(old(warnings)@) + replacement_warnings(
        bytes@,
        encoding@,
    ));
}

/// Whether a charset is UTF-8, by its name.
fn is_utf8_name(encoding: &Charset) -> (r: bool)
    ensures
        r == (encoding@ == utf8_name()),
{
    same_text(encoding.name(), "UTF-8")
}

/// The character that a two-byte UTF-8 sequence starting with 0xC3 encodes.
fn latin1_letter_char(b0: u8, b1: u8) -> (c: char)
    requires
        b0 == 0xC3,
        0x80 <= b1 <= 0xBF,
    ensures
        c == two_byte_char(b0, b1),
{
    let byte2 = b1 as u16;
    let codepoint: u16 = ((b0 as u16 & 0x1F) << 6) | (byte2 & 0x3F);
    assert(b0 == 0xC3 ==> ((((b0 as u16) & 0x1F) << 6) | ((b1 as u16) & 0x3F)) as u32 == ((((
    b0 & 0x1F) as u32) << 6) | ((b1 & 0x3F) as u32)) && ((((b0 as u16) & 0x1F) << 6) | ((
    b1 as u16) & 0x3F)) <= 0xFF) by (bit_vector);
    (codepoint as u8) as char
}

fn utf8_as_latin1_text(b0: u8, b1: u8, suggested: char) -> (m: String)
    ensures
        m@ == "Bytes 0x"@ + hex2(b0) + " 0x"@ + hex2(b1)
            + " look like UTF-8→Latin-1 mojibake — \""@ + seq![suggested]
            + "\" read as \""@ + seq![b0 as char, b1 as char] + "\""@,
{
    let mut m = String::new();
    push_str(&mut m, "Bytes 0x");
    push_hex2(&mut m, b0);
    push_str(&mut m, " 0x");
    push_hex2(&mut m, b1);
    push_str(&mut m, " look like UTF-8→Latin-1 mojibake — \"");
    push_char(&mut m, suggested);
    push_str(&mut m, "\" read as \"");
    push_char(&mut m, b0 as char);
    push_char(&mut m, b1 as char);
    push_str(&mut m, "\"");
    assert(m@ =~= "Bytes 0x"@ + hex2(b0) + " 0x"@ + hex2(b1)
        + " look like UTF-8→Latin-1 mojibake — \""@ + seq![suggested] + "\" read as \""@
        + seq![b0 as char, b1 as char] + "\""@);
    m
}

fn single_char_string(c: char) -> (s: String)
    ensures
        s@ == seq![c],
{
    let mut s = String::new();
    push_char(&mut s, c);
    assert(s@ =~= seq![c]);
    s
}

fn check_utf8_as_latin1(
    bytes: &[u8],
    encoding: &Charset,
    line_map: &[usize],
    warnings: &mut Vec<Warning>,
)
    requires
        line_map@ == line_starts(bytes@),
    ensures
        warnings_view(final(warnings)@) == warnings_view(old(warnings)@) + utf8_as_latin1_warnings(
            bytes@,
            encoding@,
        ),
{
    if is_utf8_name(encoding) {
        assert(warnings_view(warnings@) =~= warnings_view(warnings@) + seq![]);
        return;
    }
    let n = bytes.len();
    let mut i: usize = 0;
    while n > 0 && i < n - 1
        invariant
            n == bytes@.len(),
            i <= n,
            line_map@ == line_starts(bytes@),
            warnings_view(warnings@) + utf8_as_latin1_from(bytes@, i as int) == warnings_view(
                old(warnings)@,
            ) + utf8_as_latin1_from(bytes@, 0),
        decreases n - i,
    {
        if bytes[i] == 0xC3 && 0x80 <= bytes[i + 1] && bytes[i + 1] <= 0xBF {
            let b0 = bytes[i];
            let b1 = bytes[i + 1];
            let line = byte_offset_to_line(i, line_map);
            proof {
                lemma_line_of_offset(bytes@, i);
            }
            let suggested = latin1_letter_char(b0, b1);
            let message = utf8_as_latin1_text(b0, b1, suggested);
            let ghost before = warnings_view(warnings@);
            let w = Warning {
                offset: i,
                length: 2,
                warning_type: "utf8_as_latin1".to_owned(),
                message,
                bytes: vec![b0, b1],
                suggested_char: Some(single_char_string(suggested)),
                line,
            };
            assert(w@ == utf8_as_latin1_warning(bytes@, i as int)) by {
                assert(w@.bytes =~= seq![b0, b1]);
            }
            push_warning(warnings, w);
            assert(warnings_view(warnings@) + utf8_as_latin1_from(bytes@, i + 2) =~= before
                + utf8_as_latin1_from(bytes@, i as int));
            i = i + 2;
        } else {
            i = i + 1;
        }
    }
    assert(warnings_view(warnings@) =~= warnings_view(warnings@) + utf8_as_latin1_from(
        bytes@,
        i as int,
    ));
}

fn has_utf8_errors(bytes: &[u8]) -> (r: bool)
    ensures
        r == !valid_utf8(bytes@),
{
    std::str::from_utf8(bytes).is_err()
}

fn any_latin1_letter(bytes: &[u8]) -> (r: bool)
    ensures
        r == has_latin1_letter(bytes@),
{
    let mut i: usize = 0;
    while i < bytes.len()
        invariant
            i <= bytes@.len(),
            forall|k: int| 0 <= k < i ==> !is_latin1_letter(#[trigger] bytes@[k]),
        decreases bytes@.len() - i,
    {
        let b = bytes[i];
        if b == 0xE5 || b == 0xE4 || b == 0xF6 || b == 0xC5 || b == 0xC4 || b == 0xD6 || b == 0xE6
            || b == 0xF8 || b == 0xC6 || b == 0xD8 || b == 0xE9 || b == 0xE8 || b == 0xFC || b
            == 0xF1 || b == 0xE0 || b == 0xF5 {
            assert(is_latin1_letter(bytes@[i as int]));
            return true;
        }
        i = i + 1;
    }
    false
}

/// Every position the scan for Latin-1 bytes reports lies in the buffer, at
/// or after where the scan started.
proof fn lemma_positions_in_range(bytes: Seq<u8>, i: int)
    requires
        0 <= i,
        bytes.len() <= usize::MAX,
    ensures
        forall|k: int|
            0 <= k < latin1_positions_from(bytes, i).len() ==> i <= #[trigger] latin1_positions_from(
                bytes,
                i,
            )[k].0 < bytes.len() && latin1_positions_from(bytes, i)[k].1 == bytes[latin1_positions_from(
                bytes,
                i,
            )[k].0 as int],
    decreases bytes.len() - i,
{
    if i < bytes.len() {
        let rest = bytes.subrange(i, bytes.len() as int);
        if valid_first_scalar(rest) {
            let next = i + length_of_first_scalar(rest);
            lemma_positions_in_range(bytes, next);
            let all = latin1_positions_from(bytes, i);
            assert(all == latin1_positions_from(bytes, next));
            assert forall|k: int| 0 <= k < all.len() implies i <= #[trigger] all[k].0 < bytes.len()
                && all[k].1 == bytes[all[k].0 as int] by {
                assert(next <= all[k].0);
            }
        } else {
            lemma_positions_in_range(bytes, i + 1);
            let tail = latin1_positions_from(bytes, i + 1);
            let all = latin1_positions_from(bytes, i);
            assert(all == seq![(i as usize, bytes[i])] + tail);
            assert forall|k: int| 0 <= k < all.len() implies i <= #[trigger] all[k].0 < bytes.len()
                && all[k].1 == bytes[all[k].0 as int] by {
                if k > 0 {
                    assert(all[k] == tail[k - 1]);
                }
            }
        }
    }
}

fn latin1_byte_text(b: u8) -> (m: String)
    ensures
        m@ == latin1_byte_message(b),
{
    let mut m = String::new();
    push_str(&mut m, "Byte 0x");
    push_hex2(&mut m, b);
    push_str(&mut m, " is invalid UTF-8 but valid Latin-1 \"");
    push_char(&mut m, b as char);
    push_str(&mut m, "\" — possible Latin-1→UTF-8 mojibake");
    assert(m@ =~= latin1_byte_message(b));
    m
}

fn latin1_summary_text(count: usize) -> (m: String)
    ensures
        m@ == latin1_summary_message(count as nat),
{
    let mut m = String::new();
    push_decimal(&mut m, count);
    push_str(&mut m, " bytes are valid Latin-1 but invalid UTF-8 — file may actually be Latin-1 encoded");
    m
}

fn check_latin1_as_utf8(
    bytes: &[u8],
    encoding: &Charset,
    line_map: &[usize],
    warnings: &mut Vec<Warning>,
)
    requires
        decodable(bytes@),
        line_map@ == line_starts(bytes@),
    ensures
        warnings_view(final(warnings)@) == warnings_view(old(warnings)@) + latin1_as_utf8_warnings(
            bytes@,
            encoding@,
        ),
{
    let ghost start = warnings_view(warnings@);
    if !is_utf8_name(encoding) {
        assert(warnings_view(warnings@) =~= start + seq![]);
        return;
    }
    let windows_1252 = known(Known::Windows1252);
    if is_valid_as(bytes, &windows_1252) {
        let latin1_specific = any_latin1_letter(bytes);
        let utf8_errors = has_utf8_errors(bytes);
        if utf8_errors || latin1_specific {
            let byte_positions = find_latin1_bytes(bytes);
            proof {
                lemma_positions_in_range(bytes@, 0);
            }
            let ghost per_byte = byte_positions@.map_values(
                |p: (usize, u8)| latin1_byte_warning(bytes@, p),
            );
            let mut k: usize = 0;
            while k < byte_positions.len()
                invariant
                    k <= byte_positions@.len(),
                    decodable(bytes@),
                    byte_positions@ == latin1_positions(bytes@),
                    forall|j: int|
                        0 <= j < byte_positions@.len() ==> #[trigger] byte_positions@[j].0
                            < bytes@.len(),
                    line_map@ == line_starts(bytes@),
                    per_byte == byte_positions@.map_values(
                        |p: (usize, u8)| latin1_byte_warning(bytes@, p),
                    ),
                    warnings_view(warnings@) == start + per_byte.take(k as int),
                decreases byte_positions@.len() - k,
            {
                let (offset, byte_val) = byte_positions[k];
                let line = byte_offset_to_line(offset, line_map);
                proof {
                    lemma_line_of_offset(bytes@, offset);
                }
                let expected_char = byte_val as char;
                let w = Warning {
                    offset,
                    length: 1,
                    warning_type: "latin1_as_utf8".to_owned(),
                    message: latin1_byte_text(byte_val),
                    bytes: vec![byte_val],
                    suggested_char: Some(single_char_string(expected_char)),
                    line,
                };
                assert(w@ == latin1_byte_warning(bytes@, byte_positions@[k as int])) by {
                    assert(w@.bytes =~= seq![byte_val]);
                }
                push_warning(warnings, w);
                assert(per_byte.take(k + 1) =~= per_byte.take(k as int).push(per_byte[k as int]));
                k = k + 1;
            }
            assert(per_byte.take(k as int) =~= per_byte);
            if byte_positions.len() > 2 {
                let (first, _) = byte_positions[0];
                let line = byte_offset_to_line(first, line_map);
                proof {
                    lemma_line_of_offset(bytes@, first);
                }
                let w = Warning {
                    offset: first,
                    length: byte_positions.len(),
                    warning_type: "latin1_as_utf8".to_owned(),
                    message: latin1_summary_text(byte_positions.len()),
                    bytes: Vec::new(),
                    suggested_char: None,
                    line,
                };
                assert(w@ == latin1_summary_warning(bytes@, byte_positions@)) by {
                    assert(w@.bytes =~= Seq::<u8>::empty());
                }
                push_warning(warnings, w);
            }
            assert(warnings_view(warnings@) =~= start + latin1_as_utf8_warnings(bytes@, encoding@));
            return;
        }
    }
    assert(warnings_view(warnings@) =~= start + latin1_as_utf8_warnings(bytes@, encoding@));
}

/* ---------- Binary files ---------- */

/// The first 4096 bytes of `bytes` (all of them if there are fewer), which
/// decide whether a file looks binary.
pub open spec fn binary_sample(bytes: Seq<u8>) -> Seq<u8> {
    if bytes.len() > 4096 {
        bytes.take(4096)
    } else {
        bytes
    }
}

/// The NUL byte.
pub open spec fn is_nul(b: u8) -> bool {
    b == 0
}

/// Printable ASCII, tab, line feed and carriage return.
pub open spec fn is_text_byte(b: u8) -> bool {
    (0x20 <= b <= 0x7E) || b == 9 || b == 10 || b == 13
}

/// Control bytes other than backspace, tab, line feed, vertical tab, form
/// feed and carriage return.
pub open spec fn is_control_byte(b: u8) -> bool {
    b == 0x00 || b == 0x7F || b < 0x08 || (b > 0x0D && b < 0x20)
}

/// Whether `bytes` look binary, judged on their sample: more than one in
/// twenty NUL bytes, fewer than half text bytes, or more than one in ten
/// control bytes. An empty buffer is not binary.
pub open spec fn binary_verdict(bytes: Seq<u8>) -> bool {
    let sample = binary_sample(bytes);
    let n = sample.len();
    let nuls = count_where(sample, |b: u8| is_nul(b));
    let text = count_where(sample, |b: u8| is_text_byte(b));
    let control = count_where(sample, |b: u8| is_control_byte(b));
    if n == 0 {
        false
    } else if nuls > 0 && nuls * 20 > n {
        true
    } else if text * 2 < n {
        true
    } else {
        control * 10 > n
    }
}

/// Whether `bytes` look like a binary file rather than text.
pub fn looks_binary(bytes: &[u8]) -> (r: bool)
    ensures
        r == binary_verdict(bytes@),
{
    let limit: usize = if bytes.len() > 4096 { 4096 } else { bytes.len() };
    let ghost sample = binary_sample(bytes@);
    assert(sample =~= bytes@.take(limit as int));
    if limit == 0 {
        return false;
    }
    let mut nuls: usize = 0;
    let mut text: usize = 0;
    let mut control: usize = 0;
    let mut i: usize = 0;
    while i < limit
        invariant
            limit <= 4096,
            limit <= bytes@.len(),
            i <= limit,
            nuls <= i,
            text <= i,
            control <= i,
            nuls == count_where(bytes@.take(i as int), |b: u8| is_nul(b)),
            text == count_where(bytes@.take(i as int), |b: u8| is_text_byte(b)),
            control == count_where(bytes@.take(i as int), |b: u8| is_control_byte(b)),
        decreases limit - i,
    {
        assert(bytes@.take(i + 1).drop_last() =~= bytes@.take(i as int));
        let b = bytes[i];
        if b == 0x00 {
            nuls = nuls + 1;
        }
        if (0x20 <= b && b <= 0x7E) || b == 9 || b == 10 || b == 13 {
            text = text + 1;
        }
        if b == 0x00 || b == 0x7F || b < 0x08 || (b > 0x0D && b < 0x20) {
            control = control + 1;
        }
        i = i + 1;
    }
    if nuls > 0 && nuls * 20 > limit {
        return true;
    }
    if text * 2 < limit {
        return true;
    }
    if control * 10 > limit {
        return true;
    }
    false
}

/* ---------- Laws ---------- */
proof fn lemma_count_all<T>(s: Seq<T>, p: spec_fn(T) -> bool)
    requires
        forall|i: int| 0 <= i < s.len() ==> p(#[trigger] s[i]),
    ensures
        count_where(s, p) == s.len(),
    decreases s.len(),
{
    if s.len() > 0 {
        let prefix = s.drop_last();
        assert forall|i: int| 0 <= i < prefix.len() implies p(#[trigger] prefix[i]) by {
            assert(prefix[i] == s[i]);
        }
        lemma_count_all(prefix, p);
        assert(p(s[s.len() - 1]));
    }
}

proof fn lemma_count_none<T>(s: Seq<T>, p: spec_fn(T) -> bool)
    requires
        forall|i: int| 0 <= i < s.len() ==> !p(#[trigger] s[i]),
    ensures
        count_where(s, p) == 0,
    decreases s.len(),
{
    if s.len() > 0 {
        let prefix = s.drop_last();
        assert forall|i: int| 0 <= i < prefix.len() implies !p(#[trigger] prefix[i]) by {
            assert(prefix[i] == s[i]);
        }
        lemma_count_none(prefix, p);
        assert(!p(s[s.len() - 1]));
    }
}

/// Whether a buffer looks binary depends on its first 4096 bytes alone:
/// two buffers that agree there get the same verdict, whatever follows.
pub proof fn lemma_binary_depends_on_first_4096(a: Seq<u8>, b: Seq<u8>)
    requires
        a.len() >= 4096,
        b.len() >= 4096,
        a.take(4096) == b.take(4096),
    ensures
        binary_verdict(a) == binary_verdict(b),
{
    if a.len() == 4096 {
        assert(a.take(4096) =~= a);
    }
    if b.len() == 4096 {
        assert(b.take(4096) =~= b);
    }
    assert(binary_sample(a) =~= binary_sample(b));
}

/// A buffer of NUL bytes alone always looks binary.
pub proof fn lemma_nul_bytes_are_binary(bytes: Seq<u8>)
    requires
        bytes.len() > 0,
        forall|i: int| 0 <= i < bytes.len() ==> #[trigger] bytes[i] == 0,
    ensures
        binary_verdict(bytes),
{
    let sample = binary_sample(bytes);
    assert forall|i: int| 0 <= i < sample.len() implies #[trigger] sample[i] == 0 by {
        assert(sample[i] == bytes[i]);
    }
    lemma_count_all(sample, |b: u8| is_nul(b));
}

/// Text never looks binary: a non-empty buffer whose bytes are all printable
/// ASCII (0x20 to 0x7E), tab, line feed or carriage return is judged text.
pub proof fn lemma_plain_text_is_not_binary(bytes: Seq<u8>)
    requires
        bytes.len() > 0,
        forall|i: int|
            0 <= i < bytes.len() ==> (0x20 <= #[trigger] bytes[i] <= 0x7E) || bytes[i] == 9
                || bytes[i] == 10 || bytes[i] == 13,
    ensures
        !binary_verdict(bytes),
{
    let sample = binary_sample(bytes);
    assert forall|i: int| 0 <= i < sample.len() implies (0x20 <= #[trigger] sample[i] <= 0x7E)
        || sample[i] == 9 || sample[i] == 10 || sample[i] == 13 by {
        assert(sample[i] == bytes[i]);
    }
    lemma_count_none(sample, |b: u8| is_nul(b));
    lemma_count_all(sample, |b: u8| is_text_byte(b));
    lemma_count_none(sample, |b: u8| is_control_byte(b));
}



/// Valid UTF-8 never draws a warning about Latin-1 read as UTF-8, whatever
/// the encoding.
pub proof fn lemma_valid_utf8_has_no_latin1_warnings(bytes: Seq<u8>, encoding: Seq<char>)
    requires
        valid_utf8(bytes),
    ensures
        latin1_as_utf8_warnings(bytes, encoding) == Seq::<WarningView>::empty(),
{
    lemma_no_latin1_bytes_iff_utf8(bytes);
    if encoding == utf8_name() && decodes_cleanly(bytes, windows_1252_name()) {
        let positions = latin1_positions(bytes);
        assert(positions.map_values(|p: (usize, u8)| latin1_byte_warning(bytes, p)) =~= Seq::<
            WarningView,
        >::empty());
        assert(latin1_as_utf8_warnings(bytes, encoding) =~= Seq::<WarningView>::empty());
    }
}

/// Valid UTF-8 read as UTF-8 draws no warning at all. (The decoding that
/// `encoding_rs` does for UTF-8 succeeds exactly on valid UTF-8, as the
/// contract of `decodes_strictly` states; both facts are asked for here.)
pub proof fn lemma_clean_utf8_has_no_warnings(bytes: Seq<u8>)
    requires
        valid_utf8(bytes),
        decodes_cleanly(bytes, utf8_name()),
    ensures
        scan_warnings(bytes, utf8_name()) == Seq::<WarningView>::empty(),
{
    lemma_valid_utf8_has_no_latin1_warnings(bytes, utf8_name());
    assert(scan_warnings(bytes, utf8_name()) =~= Seq::<WarningView>::empty());
}

/// The two checks for misread text exclude each other: text read as UTF-8
/// draws no warning about UTF-8 read as Latin-1, and text read in any other
/// encoding draws none about Latin-1 read as UTF-8.
pub proof fn lemma_misread_checks_exclusive(bytes: Seq<u8>, encoding: Seq<char>)
    ensures
        utf8_as_latin1_warnings(bytes, encoding).len() == 0 || latin1_as_utf8_warnings(
            bytes,
            encoding,
        ).len() == 0,
{
}


/// The character that the UTF-8 pair 0xC3 `b1` encodes is U+00C0 to U+00FF:
/// the code of `b1` plus 0x40.
proof fn lemma_c3_pair_char(b1: u8)
    requires
        0x80 <= b1 <= 0xBF,
    ensures
        two_byte_char(0xC3u8, b1) as int == b1 as int + 0x40,
{
    assert(0x80 <= b1 <= 0xBF ==> codepoint_width_2(0xC3u8, b1) == (b1 as u32) + 0x40)
        by (bit_vector);
}

proof fn lemma_pair_found_from(bytes: Seq<u8>, j: int, i: int)
    requires
        0 <= j <= i,
        i + 1 < bytes.len(),
        bytes[i] == 0xC3,
        0x80 <= bytes[i + 1] <= 0xBF,
    ensures
        exists|k: int|
            0 <= k < utf8_as_latin1_from(bytes, j).len() && #[trigger] utf8_as_latin1_from(
                bytes,
                j,
            )[k] == utf8_as_latin1_warning(bytes, i),
    decreases i - j,
{
    let all = utf8_as_latin1_from(bytes, j);
    if j == i {
        assert(all[0] == utf8_as_latin1_warning(bytes, i));
    } else if latin1_letter_pair_at(bytes, j) {
        assert(j + 1 != i);
        lemma_pair_found_from(bytes, j + 2, i);
        let tail = utf8_as_latin1_from(bytes, j + 2);
        let k = choose|k: int| 0 <= k < tail.len() && #[trigger] tail[k] == utf8_as_latin1_warning(bytes, i);
        assert(all[k + 1] == tail[k]);
    } else {
        lemma_pair_found_from(bytes, j + 1, i);
        let tail = utf8_as_latin1_from(bytes, j + 1);
        let k = choose|k: int| 0 <= k < tail.len() && #[trigger] tail[k] == utf8_as_latin1_warning(bytes, i);
        assert(all[k] == tail[k]);
    }
}

/// Read in an encoding other than UTF-8, every UTF-8 sequence 0xC3 0x80..0xBF
/// in the bytes (the UTF-8 form of U+00C0 to U+00FF, such as Å, Ä, Ö, é) is
/// reported at its offset, quoting its two bytes and suggesting the
/// character they encode. (No such pair can overlap another: its first byte,
/// 0xC3, is never the second byte of a pair.)
pub proof fn lemma_every_utf8_pair_reported(bytes: Seq<u8>, encoding: Seq<char>, i: int)
    requires
        encoding != utf8_name(),
        bytes.len() <= usize::MAX,
        0 <= i,
        i + 1 < bytes.len(),
        bytes[i] == 0xC3,
        0x80 <= bytes[i + 1] <= 0xBF,
    ensures
        exists|k: int|
            0 <= k < scan_warnings(bytes, encoding).len() && {
                let w = #[trigger] scan_warnings(bytes, encoding)[k];
                &&& w.offset == i
                &&& w.length == 2
                &&& w.kind == "utf8_as_latin1"@
                &&& w.bytes == seq![bytes[i], bytes[i + 1]]
                &&& w.suggested matches Some(s) && s.len() == 1 && s[0] as int == bytes[i + 1]
                    as int + 0x40
            },
{
    lemma_pair_found_from(bytes, 0, i);
    let u = utf8_as_latin1_from(bytes, 0);
    let r = replacement_warnings(bytes, encoding);
    let all = scan_warnings(bytes, encoding);
    let k = choose|k: int| 0 <= k < u.len() && #[trigger] u[k] == utf8_as_latin1_warning(bytes, i);
    assert(utf8_as_latin1_warnings(bytes, encoding) == u);
    assert(all[r.len() + k] == u[k]);
    lemma_c3_pair_char(bytes[i + 1]);
    let w = all[r.len() + k];
    assert(w.offset == i);
    assert(w.kind == "utf8_as_latin1"@);
}

proof fn lemma_pairs_sound_from(bytes: Seq<u8>, j: int)
    requires
        0 <= j,
        bytes.len() <= usize::MAX,
    ensures
        forall|k: int|
            0 <= k < utf8_as_latin1_from(bytes, j).len() ==> {
                let w = #[trigger] utf8_as_latin1_from(bytes, j)[k];
                &&& j <= w.offset
                &&& w.offset + 1 < bytes.len()
                &&& bytes[w.offset as int] == 0xC3
                &&& 0x80 <= bytes[w.offset + 1] <= 0xBF
                &&& w.kind == "utf8_as_latin1"@
            },
    decreases bytes.len() - j,
{
    let all = utf8_as_latin1_from(bytes, j);
    if j + 1 < bytes.len() {
        if latin1_letter_pair_at(bytes, j) {
            lemma_pairs_sound_from(bytes, j + 2);
            let tail = utf8_as_latin1_from(bytes, j + 2);
            assert forall|k: int| 0 <= k < all.len() implies {
                let w = #[trigger] all[k];
                &&& j <= w.offset
                &&& w.offset + 1 < bytes.len()
                &&& bytes[w.offset as int] == 0xC3
                &&& 0x80 <= bytes[w.offset + 1] <= 0xBF
                &&& w.kind == "utf8_as_latin1"@
            } by {
                if k > 0 {
                    assert(all[k] == tail[k - 1]);
                }
            }
        } else {
            lemma_pairs_sound_from(bytes, j + 1);
            assert(all == utf8_as_latin1_from(bytes, j + 1));
        }
    }
}

/// Every warning about UTF-8 read as Latin-1 comes from reading in an
/// encoding other than UTF-8, and sits on a UTF-8 sequence 0xC3 0x80..0xBF
/// of the bytes.
pub proof fn lemma_utf8_pair_warnings_sound(bytes: Seq<u8>, encoding: Seq<char>)
    requires
        bytes.len() <= usize::MAX,
    ensures
        forall|k: int|
            0 <= k < scan_warnings(bytes, encoding).len()
                && (#[trigger] scan_warnings(bytes, encoding)[k]).kind == "utf8_as_latin1"@ ==> {
                let w = scan_warnings(bytes, encoding)[k];
                &&& encoding != utf8_name()
                &&& w.offset + 1 < bytes.len()
                &&& bytes[w.offset as int] == 0xC3
                &&& 0x80 <= bytes[w.offset + 1] <= 0xBF
            },
{
    reveal_strlit("utf8_as_latin1");
    reveal_strlit("replacement_char");
    reveal_strlit("latin1_as_utf8");
    assert("utf8_as_latin1"@ != "replacement_char"@) by {
        assert("utf8_as_latin1"@[0] != "replacement_char"@[0]);
    }
    assert("utf8_as_latin1"@ != "latin1_as_utf8"@) by {
        assert("utf8_as_latin1"@[0] != "latin1_as_utf8"@[0]);
    }
    lemma_pairs_sound_from(bytes, 0);
    let r = replacement_warnings(bytes, encoding);
    let u = utf8_as_latin1_warnings(bytes, encoding);
    let l = latin1_as_utf8_warnings(bytes, encoding);
    let all = scan_warnings(bytes, encoding);
    let positions = latin1_positions(bytes);
    assert forall|k: int| 0 <= k < all.len() && (#[trigger] all[k]).kind == "utf8_as_latin1"@ implies {
        let w = all[k];
        &&& encoding != utf8_name()
        &&& w.offset + 1 < bytes.len()
        &&& bytes[w.offset as int] == 0xC3
        &&& 0x80 <= bytes[w.offset + 1] <= 0xBF
    } by {
        if k < r.len() {
            assert(all[k] == r[k]);
        } else if k < r.len() + u.len() {
            assert(all[k] == u[k - r.len()]);
        } else {
            assert(all[k] == l[k - r.len() - u.len()]);
            if k - r.len() - u.len() < positions.len() {
                assert(l[k - r.len() - u.len()] == latin1_byte_warning(
                    bytes,
                    positions[k - r.len() - u.len()],
                ));
            }
        }
    }
}

/// Whether a warning points into the file: the bytes it quotes are the
/// file's bytes at its offset, and its line is the line of its offset.
pub open spec fn anchored(bytes: Seq<u8>, w: WarningView) -> bool {
    &&& w.offset + w.bytes.len() <= bytes.len()
    &&& w.bytes == bytes.subrange(w.offset as int, w.offset + w.bytes.len())
    &&& w.line == line_number(bytes, w.offset as int)
}

proof fn lemma_utf8_as_latin1_anchored(bytes: Seq<u8>, i: int)
    requires
        0 <= i,
        decodable(bytes),
    ensures
        forall|k: int|
            0 <= k < utf8_as_latin1_from(bytes, i).len() ==> anchored(
                bytes,
                #[trigger] utf8_as_latin1_from(bytes, i)[k],
            ),
    decreases bytes.len() - i,
{
    if i + 1 < bytes.len() {
        if latin1_letter_pair_at(bytes, i) {
            lemma_utf8_as_latin1_anchored(bytes, i + 2);
            let w = utf8_as_latin1_warning(bytes, i);
            assert(w.bytes =~= bytes.subrange(i, i + 2));
            lemma_line_number_fits(bytes, i);
            assert(w.offset as int == i);
            assert(anchored(bytes, w));
            let tail = utf8_as_latin1_from(bytes, i + 2);
            let all = utf8_as_latin1_from(bytes, i);
            assert forall|k: int| 0 <= k < all.len() implies anchored(bytes, #[trigger] all[k]) by {
                if k > 0 {
                    assert(all[k] == tail[k - 1]);
                }
            }
        } else {
            lemma_utf8_as_latin1_anchored(bytes, i + 1);
            let all = utf8_as_latin1_from(bytes, i);
            let tail = utf8_as_latin1_from(bytes, i + 1);
            assert(all == tail);
            assert forall|k: int| 0 <= k < all.len() implies anchored(bytes, #[trigger] all[k]) by {
                assert(all[k] == tail[k]);
            }
        }
    }
}

proof fn lemma_line_number_fits(bytes: Seq<u8>, offset: int)
    requires
        0 <= offset <= bytes.len(),
        decodable(bytes),
    ensures
        1 <= line_number(bytes, offset) <= bytes.len() + 1,
{
    lemma_newline_count_bound(bytes.take(offset));
}

proof fn lemma_newline_count_bound(bytes: Seq<u8>)
    ensures
        newline_count(bytes) <= bytes.len(),
    decreases bytes.len(),
{
    if bytes.len() > 0 {
        lemma_newline_count_bound(bytes.drop_last());
    }
}

/// Every warning that a scan finds points into the file: the bytes it
/// quotes are the file's bytes at its offset, and its line is the line of
/// that offset.
pub proof fn lemma_scan_warnings_anchored(bytes: Seq<u8>, encoding: Seq<char>)
    requires
        decodable(bytes),
    ensures
        forall|k: int|
            0 <= k < scan_warnings(bytes, encoding).len() ==> anchored(
                bytes,
                #[trigger] scan_warnings(bytes, encoding)[k],
            ),
{
    let r = replacement_warnings(bytes, encoding);
    let u = utf8_as_latin1_warnings(bytes, encoding);
    let l = latin1_as_utf8_warnings(bytes, encoding);
    let all = scan_warnings(bytes, encoding);
    assert(bytes.take(0) =~= Seq::<u8>::empty());
    assert(bytes.subrange(0, 0) =~= Seq::<u8>::empty());
    lemma_utf8_as_latin1_anchored(bytes, 0);
    lemma_positions_in_range(bytes, 0);
    let positions = latin1_positions(bytes);
    assert forall|k: int| 0 <= k < l.len() implies anchored(bytes, #[trigger] l[k]) by {
        if k < positions.len() {
            let p = positions[k];
            lemma_line_number_fits(bytes, p.0 as int);
            assert(l[k] == latin1_byte_warning(bytes, p));
            assert(l[k].bytes =~= bytes.subrange(p.0 as int, p.0 + 1));
        } else {
            lemma_line_number_fits(bytes, positions[0].0 as int);
            assert(l[k].bytes =~= bytes.subrange(positions[0].0 as int, positions[0].0 as int));
        }
    }
    assert forall|k: int| 0 <= k < all.len() implies anchored(bytes, #[trigger] all[k]) by {
        if k < r.len() {
            assert(all[k] == r[k]);
        } else if k < r.len() + u.len() {
            assert(all[k] == u[k - r.len()]);
        } else {
            assert(all[k] == l[k - r.len() - u.len()]);
        }
    }
}

/// The bytes that the scan for Latin-1 bytes reports lie in the buffer, are
/// the buffer's bytes at their offsets, are never ASCII, and come in strictly
/// increasing order of offset.
pub proof fn lemma_latin1_positions_shape(bytes: Seq<u8>)
    requires
        bytes.len() <= usize::MAX,
    ensures
        forall|k: int|
            0 <= k < latin1_positions(bytes).len() ==> {
                let p = #[trigger] latin1_positions(bytes)[k];
                &&& p.0 < bytes.len()
                &&& p.1 == bytes[p.0 as int]
                &&& p.1 >= 0x80
            },
        forall|j: int, k: int|
            0 <= j < k < latin1_positions(bytes).len() ==> latin1_positions(bytes)[j].0
                < latin1_positions(bytes)[k].0,
{
    lemma_positions_in_range(bytes, 0);
    lemma_positions_sorted_non_ascii(bytes, 0);
}

proof fn lemma_positions_sorted_non_ascii(bytes: Seq<u8>, i: int)
    requires
        0 <= i,
        bytes.len() <= usize::MAX,
    ensures
        forall|k: int|
            0 <= k < latin1_positions_from(bytes, i).len() ==> (#[trigger] latin1_positions_from(
                bytes,
                i,
            )[k]).1 >= 0x80,
        forall|j: int, k: int|
            0 <= j < k < latin1_positions_from(bytes, i).len() ==> latin1_positions_from(bytes, i)[j].0
                < latin1_positions_from(bytes, i)[k].0,
    decreases bytes.len() - i,
{
    if i < bytes.len() {
        let rest = bytes.subrange(i, bytes.len() as int);
        let all = latin1_positions_from(bytes, i);
        if valid_first_scalar(rest) {
            let next = i + length_of_first_scalar(rest);
            lemma_positions_sorted_non_ascii(bytes, next);
            assert(all == latin1_positions_from(bytes, next));
        } else {
            lemma_scan_step(bytes, i);
            lemma_positions_sorted_non_ascii(bytes, i + 1);
            lemma_positions_in_range(bytes, i + 1);
            let tail = latin1_positions_from(bytes, i + 1);
            assert(all == seq![(i as usize, bytes[i])] + tail);
            assert forall|k: int| 0 <= k < all.len() implies (#[trigger] all[k]).1 >= 0x80 by {
                if k > 0 {
                    assert(all[k] == tail[k - 1]);
                }
            }
            assert forall|j: int, k: int| 0 <= j < k < all.len() implies all[j].0 < all[k].0 by {
                assert(all[k] == tail[k - 1]);
                if j > 0 {
                    assert(all[j] == tail[j - 1]);
                }
            }
        }
    }
}

} // verus!
