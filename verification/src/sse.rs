//! Server-sent event framing: decoding of byte chunks, blocks and field lines.

use crate::text::{chars_of, concat2, join, join_strings, lines, split_lines, starts_with};
use vstd::prelude::*;
use vstd::slice::slice_subrange;
use vstd::string::*;
use vstd::utf8::*;

verus! {

/// The value of a field line: what follows the field's name and a colon, without one space
/// that may stand after the colon.
pub open spec fn field_value(line: Seq<char>, field: Seq<char>) -> Option<Seq<char>> {
    let name = field.push(':');
    if name.push(' ').is_prefix_of(line) {
        Some(line.skip(name.len() as int + 1))
    } else if name.is_prefix_of(line) {
        Some(line.skip(name.len() as int))
    } else {
        None
    }
}

/// The values of the lines that carry `field`, in order.
pub open spec fn field_values(lines: Seq<Seq<char>>, field: Seq<char>) -> Seq<Seq<char>>
    decreases lines.len(),
{
    if lines.len() == 0 {
        Seq::empty()
    } else {
        let before = field_values(lines.drop_last(), field);
        match field_value(lines.last(), field) {
            Some(value) => before.push(value),
            None => before,
        }
    }
}

/// The values of a block's `data` lines, in order.
pub open spec fn data_values(block: Seq<char>) -> Seq<Seq<char>> {
    field_values(lines(block), "data"@)
}

/// The payload of a block: its `data` values with a newline between neighbours.
pub open spec fn block_data(block: Seq<char>) -> Seq<char> {
    join(data_values(block), "\n"@)
}

/// The value of a block's first `event` line.
pub open spec fn block_event(block: Seq<char>) -> Option<Seq<char>> {
    let values = field_values(lines(block), "event"@);
    if values.len() > 0 {
        Some(values[0])
    } else {
        None
    }
}

/// The length of the block delimiter that stands at position `i`: two newlines, both of them
/// with a carriage return in front or both without, or 0 where none stands.
pub open spec fn delimiter_at(s: Seq<char>, i: int) -> int {
    if 0 <= i && i + 1 < s.len() && s[i] == '\n' && s[i + 1] == '\n' {
        2
    } else if 0 <= i && i + 3 < s.len() && s[i] == '\r' && s[i + 1] == '\n' && s[i + 2] == '\r'
        && s[i + 3] == '\n' {
        4
    } else {
        0
    }
}

/// The first position from `i` on at which a block delimiter stands, or `s.len()`.
pub open spec fn block_end(s: Seq<char>, i: int) -> int
    decreases s.len() - i,
{
    if i < 0 || i >= s.len() {
        s.len() as int
    } else if delimiter_at(s, i) > 0 {
        i
    } else {
        block_end(s, i + 1)
    }
}

/// What remains of `s` behind its first block and that block's delimiter.
pub open spec fn after_block(s: Seq<char>) -> Seq<char> {
    let end = block_end(s, 0);
    s.skip(end + delimiter_at(s, end))
}

/// The complete blocks of `s`, in order.
pub open spec fn blocks(s: Seq<char>) -> Seq<Seq<char>>
    decreases s.len(),
{
    let end = block_end(s, 0);
    if 0 <= end < s.len() && delimiter_at(s, end) > 0 && end + delimiter_at(s, end) <= s.len() {
        seq![s.take(end)] + blocks(after_block(s))
    } else {
        Seq::empty()
    }
}

/// The part of `s` behind its last complete block.
pub open spec fn unframed(s: Seq<char>) -> Seq<char>
    decreases s.len(),
{
    let end = block_end(s, 0);
    if 0 <= end < s.len() && delimiter_at(s, end) > 0 && end + delimiter_at(s, end) <= s.len() {
        unframed(after_block(s))
    } else {
        s
    }
}

/// Whether `second` may follow `first` in the encoding of a scalar of three or four bytes.
pub open spec fn second_byte_fits(first: u8, second: u8) -> bool {
    if first == 0xe0 {
        0xa0 <= second <= 0xbf
    } else if first == 0xed {
        0x80 <= second <= 0x9f
    } else if first == 0xf0 {
        0x90 <= second <= 0xbf
    } else if first == 0xf4 {
        0x80 <= second <= 0x8f
    } else {
        0x80 <= second <= 0xbf
    }
}

/// The length of the ill-formed sequence at the start of bytes that begin with no scalar, or
/// `None` where the bytes may be the start of a scalar that is not complete.
pub open spec fn ill_formed_len(bytes: Seq<u8>) -> Option<nat> {
    let first = bytes[0];
    if 0xc2 <= first <= 0xdf {
        if bytes.len() < 2 {
            None
        } else {
            Some(1)
        }
    } else if 0xe0 <= first <= 0xf4 {
        if bytes.len() < 2 {
            None
        } else if !second_byte_fits(first, bytes[1]) {
            Some(1)
        } else if bytes.len() < 3 {
            None
        } else if first <= 0xef || !is_continuation_byte(bytes[2]) {
            Some(2)
        } else if bytes.len() < 4 {
            None
        } else {
            Some(3)
        }
    } else {
        Some(1)
    }
}

/// The character that stands for an ill-formed sequence.
pub open spec fn replacement_character() -> char {
    '\u{fffd}'
}

/// The characters of a byte stream's beginning: every ill-formed sequence becomes one
/// replacement character, and an incomplete scalar at the end is left out.
pub open spec fn decoded(bytes: Seq<u8>) -> Seq<char>
    decreases bytes.len(),
{
    if bytes.len() == 0 {
        Seq::empty()
    } else if valid_first_scalar(bytes) {
        seq![decode_first_scalar(bytes) as char] + decoded(pop_first_scalar(bytes))
    } else {
        match ill_formed_len(bytes) {
            None => Seq::empty(),
            Some(n) => seq![replacement_character()] + decoded(bytes.skip(n as int)),
        }
    }
}

/// The incomplete scalar at the end of a byte stream's beginning.
pub open spec fn undecoded(bytes: Seq<u8>) -> Seq<u8>
    decreases bytes.len(),
{
    if bytes.len() == 0 {
        Seq::empty()
    } else if valid_first_scalar(bytes) {
        undecoded(pop_first_scalar(bytes))
    } else {
        match ill_formed_len(bytes) {
            None => bytes,
            Some(n) => undecoded(bytes.skip(n as int)),
        }
    }
}

/// The value of a field line.
pub fn strip_sse_field<'a>(line: &'a str, field: &str) -> (res: Option<&'a str>)
    ensures
        match res {
            Some(value) => field_value(line@, field@) == Some(value@),
            None => field_value(line@, field@) is None,
        },
{
    proof {
        reveal_strlit(":");
        reveal_strlit(": ");
        assert(field@ + ":"@ =~= field@.push(':'));
        assert(field@ + ": "@ =~= field@.push(':').push(' '));
    }
    let name = concat2(field, ":");
    let spaced = concat2(field, ": ");
    let len = line.unicode_len();
    if starts_with(line, spaced.as_str()) {
        assert(spaced@.len() <= line@.len());
        let from = spaced.as_str().unicode_len();
        let value = line.substring_char(from, len);
        assert(value@ =~= line@.skip(from as int));
        Some(value)
    } else if starts_with(line, name.as_str()) {
        assert(name@.len() <= line@.len());
        let from = name.as_str().unicode_len();
        let value = line.substring_char(from, len);
        assert(value@ =~= line@.skip(from as int));
        Some(value)
    } else {
        None
    }
}

/// The values of the lines of a block that carry a field.
fn read_field_values(block: &str, field: &str) -> (values: Vec<String>)
    ensures
        values.deep_view() == field_values(lines(block@), field@),
{
    let all = split_lines(block);
    let ghost wanted = all.deep_view();
    let mut values: Vec<String> = Vec::new();
    let mut i: usize = 0;
    while i < all.len()
        invariant
            i <= all.len(),
            wanted == all.deep_view(),
            values.deep_view() == field_values(wanted.take(i as int), field@),
        decreases all.len() - i,
    {
        proof {
            assert(wanted.take(i + 1).drop_last() =~= wanted.take(i as int));
            assert(wanted.take(i + 1).last() == all@[i as int]@);
        }
        if let Some(value) = strip_sse_field(all[i].as_str(), field) {
            let ghost before = values.deep_view();
            values.push(value.to_owned());
            assert(values.deep_view() =~= before.push(value@));
        }
        i += 1;
    }
    assert(wanted.take(wanted.len() as int) =~= wanted);
    values
}

/// The values of a block's `data` lines.
pub fn read_data_values(block: &str) -> (values: Vec<String>)
    ensures
        values.deep_view() == data_values(block@),
{
    read_field_values(block, "data")
}

/// The payload of a block.
pub fn read_block_data(block: &str) -> (data: String)
    ensures
        data@ == block_data(block@),
{
    let values = read_data_values(block);
    join_strings(&values, "\n")
}

/// The value of a block's first `event` line.
pub fn read_block_event(block: &str) -> (name: Option<String>)
    ensures
        name.deep_view() == block_event(block@),
{
    let values = read_field_values(block, "event");
    if values.len() > 0 {
        assert(values.deep_view()[0] == values@[0]@);
        Some(values[0].clone())
    } else {
        None
    }
}

pub proof fn lemma_block_end_is(s: Seq<char>, from: int, i: int)
    requires
        0 <= from <= i <= s.len(),
        forall|k: int| from <= k < i ==> delimiter_at(s, k) == 0,
        i < s.len() ==> delimiter_at(s, i) > 0,
    ensures
        block_end(s, from) == i,
    decreases i - from,
{
    if from < i {
        lemma_block_end_is(s, from + 1, i);
    }
}

/// Takes the first complete block out of a buffer. Without one, nothing changes.
pub fn take_sse_block(buffer: &mut String) -> (res: Option<String>)
    ensures
        match res {
            Some(block) => {
                &&& blocks(old(buffer)@) == seq![block@] + blocks(final(buffer)@)
                &&& unframed(old(buffer)@) == unframed(final(buffer)@)
                &&& block@ == old(buffer)@.take(block_end(old(buffer)@, 0))
                &&& final(buffer)@ == after_block(old(buffer)@)
                &&& final(buffer)@.len() < old(buffer)@.len()
            },
            None => {
                &&& final(buffer)@ == old(buffer)@
                &&& blocks(old(buffer)@).len() == 0
                &&& unframed(old(buffer)@) == old(buffer)@
            },
        },
{
    let ghost before = buffer@;
    let chars = chars_of(buffer.as_str());
    let n = chars.len();
    let mut i: usize = 0;
    while i < n
        invariant
            n == chars.len(),
            chars@ == before,
            buffer@ == before,
            before == old(buffer)@,
            i <= n,
            forall|k: int| 0 <= k < i ==> delimiter_at(before, k) == 0,
        decreases n - i,
    {
        let len: usize = if n - i >= 2 && chars[i] == '\n' && chars[i + 1] == '\n' {
            2
        } else if n - i >= 4 && chars[i] == '\r' && chars[i + 1] == '\n' && chars[i + 2] == '\r'
            && chars[i + 3] == '\n' {
            4
        } else {
            0
        };
        assert(len == delimiter_at(before, i as int));
        if len > 0 {
            proof {
                lemma_block_end_is(before, 0, i as int);
            }
            let block = buffer.as_str().substring_char(0, i).to_owned();
            let rest = buffer.as_str().substring_char(i + len, n).to_owned();
            assert(block@ =~= before.take(i as int));
            assert(rest@ =~= before.skip(i + len));
            *buffer = rest;
            return Some(block);
        }
        i += 1;
    }
    proof {
        lemma_block_end_is(before, 0, n as int);
    }
    None
}

/// The text that bytes encode.
///
/// Calls `std::str::from_utf8`, which gives the text of exactly those byte sequences that
/// are UTF-8 throughout.
#[verifier::external_body]
pub(crate) fn utf8_text(bytes: &[u8]) -> (res: Option<&str>)
    ensures
        match res {
            Some(text) => valid_utf8(bytes@) && text@ == decode_utf8(bytes@),
            None => !valid_utf8(bytes@),
        },
{
    std::str::from_utf8(bytes).ok()
}

/// What stands at the start of a byte sequence.
enum Scan {
    /// A scalar of this many bytes.
    Scalar(usize),
    /// An ill-formed sequence of this many bytes.
    IllFormed(usize),
    /// The start of a scalar that is not complete.
    Incomplete,
}

spec fn scan_matches(scan: Scan, bytes: Seq<u8>) -> bool {
    match scan {
        Scan::Scalar(n) => valid_first_scalar(bytes) && n == length_of_first_scalar(bytes),
        Scan::IllFormed(n) => !valid_first_scalar(bytes) && ill_formed_len(bytes) == Some(n as nat),
        Scan::Incomplete => !valid_first_scalar(bytes) && ill_formed_len(bytes) is None,
    }
}

proof fn lemma_two_bytes(a: u8, b: u8)
    by (bit_vector)
    requires
        0xc0 <= a <= 0xdf,
        0x80 <= b <= 0xbf,
    ensures
        0x80 <= (((a & 0x1f) as u32) << 6 | ((b & 0x3f) as u32)) <==> 0xc2 <= a,
        (((a & 0x1f) as u32) << 6 | ((b & 0x3f) as u32)) < 0xd800,
{
}

proof fn lemma_three_bytes(a: u8, b: u8, c: u8)
    by (bit_vector)
    requires
        0xe0 <= a <= 0xef,
        0x80 <= b <= 0xbf,
        0x80 <= c <= 0xbf,
    ensures
        0x800 <= (((a & 0x0f) as u32) << 12 | ((b & 0x3f) as u32) << 6 | ((c & 0x3f) as u32))
            <==> (a == 0xe0 ==> 0xa0 <= b),
        (0xd800 <= (((a & 0x0f) as u32) << 12 | ((b & 0x3f) as u32) << 6 | ((c & 0x3f) as u32))
            <= 0xdfff) <==> (a == 0xed && 0xa0 <= b),
{
}

proof fn lemma_four_bytes(a: u8, b: u8, c: u8, d: u8)
    by (bit_vector)
    requires
        0xf0 <= a <= 0xf7,
        0x80 <= b <= 0xbf,
        0x80 <= c <= 0xbf,
        0x80 <= d <= 0xbf,
    ensures
        (0x10000 <= (((a & 0x07) as u32) << 18 | ((b & 0x3f) as u32) << 12 | ((c & 0x3f) as u32)
            << 6 | ((d & 0x3f) as u32)) <= 0x10ffff) <==> (a <= 0xf4 && (a == 0xf0 ==> 0x90 <= b)
            && (a == 0xf4 ==> b <= 0x8f)),
        0xd800 <= (((a & 0x07) as u32) << 18 | ((b & 0x3f) as u32) << 12 | ((c & 0x3f) as u32)
            << 6 | ((d & 0x3f) as u32)) <= 0xdfff ==> a == 0xf0 && b < 0x90,
{
}

/// Whether bytes begin with the encoding of a scalar, told from the bytes alone.
pub open spec fn starts_with_scalar(bytes: Seq<u8>) -> bool {
    let first = bytes[0];
    ||| first <= 0x7f
    ||| 0xc2 <= first <= 0xdf && bytes.len() >= 2 && is_continuation_byte(bytes[1])
    ||| 0xe0 <= first <= 0xef && bytes.len() >= 3 && second_byte_fits(first, bytes[1])
        && is_continuation_byte(bytes[2])
    ||| 0xf0 <= first <= 0xf4 && bytes.len() >= 4 && second_byte_fits(first, bytes[1])
        && is_continuation_byte(bytes[2]) && is_continuation_byte(bytes[3])
}

pub proof fn lemma_first_scalar(bytes: Seq<u8>)
    requires
        bytes.len() > 0,
    ensures
        valid_first_scalar(bytes) == starts_with_scalar(bytes),
{
    let a = bytes[0];
    if bytes.len() >= 2 && is_leading_byte_width_2(a) && is_continuation_byte(bytes[1]) {
        lemma_two_bytes(a, bytes[1]);
    }
    if bytes.len() >= 3 && is_leading_byte_width_3(a) && is_continuation_byte(bytes[1])
        && is_continuation_byte(bytes[2]) {
        lemma_three_bytes(a, bytes[1], bytes[2]);
    }
    if bytes.len() >= 4 && is_leading_byte_width_4(a) && is_continuation_byte(bytes[1])
        && is_continuation_byte(bytes[2]) && is_continuation_byte(bytes[3]) {
        lemma_four_bytes(a, bytes[1], bytes[2], bytes[3]);
    }
    if a <= 0x7f {
        assert(a & 0x7f == a) by (bit_vector)
            requires
                a <= 0x7f,
        ;
    }
}

fn second_fits(first: u8, second: u8) -> (res: bool)
    ensures
        res == second_byte_fits(first, second),
{
    if first == 0xe0 {
        0xa0 <= second && second <= 0xbf
    } else if first == 0xed {
        0x80 <= second && second <= 0x9f
    } else if first == 0xf0 {
        0x90 <= second && second <= 0xbf
    } else if first == 0xf4 {
        0x80 <= second && second <= 0x8f
    } else {
        0x80 <= second && second <= 0xbf
    }
}

/// Looks at the bytes from `at` on.
fn scan(bytes: &[u8], at: usize) -> (res: Scan)
    requires
        at < bytes@.len(),
    ensures
        scan_matches(res, bytes@.skip(at as int)),
{
    let ghost rest = bytes@.skip(at as int);
    let n = bytes.len() - at;
    let a = bytes[at];
    assert(a == rest[0]);
    proof {
        lemma_first_scalar(rest);
    }
    if a <= 0x7f {
        return Scan::Scalar(1);
    }
    if a < 0xc2 || a > 0xf4 {
        return Scan::IllFormed(1);
    }
    if n < 2 {
        return Scan::Incomplete;
    }
    let b = bytes[at + 1];
    assert(b == rest[1]);
    if a <= 0xdf {
        if 0x80 <= b && b <= 0xbf {
            return Scan::Scalar(2);
        }
        return Scan::IllFormed(1);
    }
    if !second_fits(a, b) {
        return Scan::IllFormed(1);
    }
    if n < 3 {
        return Scan::Incomplete;
    }
    let c = bytes[at + 2];
    assert(c == rest[2]);
    if !(0x80 <= c && c <= 0xbf) {
        return Scan::IllFormed(2);
    }
    if a <= 0xef {
        return Scan::Scalar(3);
    }
    if n < 4 {
        return Scan::Incomplete;
    }
    let d = bytes[at + 3];
    assert(d == rest[3]);
    if 0x80 <= d && d <= 0xbf {
        Scan::Scalar(4)
    } else {
        Scan::IllFormed(3)
    }
}

/// The encoding of two pieces of text, one after the other, decodes to the two pieces.
proof fn lemma_decode_concat(a: Seq<u8>, b: Seq<u8>)
    requires
        valid_utf8(a),
        valid_utf8(b),
    ensures
        valid_utf8(a + b),
        decode_utf8(a + b) == decode_utf8(a) + decode_utf8(b),
    decreases a.len(),
{
    valid_utf8_concat(a, b);
    if a.len() == 0 {
        assert(a + b =~= b);
        assert(decode_utf8(a) + decode_utf8(b) =~= decode_utf8(b));
    } else {
        let whole = a + b;
        assert(valid_first_scalar(a));
        assert(whole[0] == a[0]);
        assert(length_of_first_scalar(whole) == length_of_first_scalar(a));
        assert(decode_first_scalar(whole) == decode_first_scalar(a));
        assert(pop_first_scalar(whole) =~= pop_first_scalar(a) + b);
        lemma_decode_concat(pop_first_scalar(a), b);
        let first = seq![decode_first_scalar(a) as char];
        assert(first + (decode_utf8(pop_first_scalar(a)) + decode_utf8(b)) =~= (first + decode_utf8(
            pop_first_scalar(a),
        )) + decode_utf8(b));
    }
}

/// The bytes of the first scalar are the encoding of that scalar alone.
proof fn lemma_first_scalar_alone(bytes: Seq<u8>)
    requires
        bytes.len() > 0,
        valid_first_scalar(bytes),
    ensures
        valid_utf8(take_first_scalar(bytes)),
        decode_utf8(take_first_scalar(bytes)) == seq![decode_first_scalar(bytes) as char],
{
    let alone = take_first_scalar(bytes);
    assert(alone.len() == length_of_first_scalar(bytes));
    assert(alone[0] == bytes[0]);
    assert(valid_first_scalar(alone));
    assert(decode_first_scalar(alone) == decode_first_scalar(bytes));
    assert(pop_first_scalar(alone) =~= Seq::<u8>::empty());
    assert(valid_utf8(Seq::<u8>::empty()));
    assert(decode_utf8(Seq::<u8>::empty()) =~= Seq::<char>::empty());
    assert(seq![decode_first_scalar(bytes) as char] + Seq::<char>::empty() =~= seq![
        decode_first_scalar(bytes) as char,
    ]);
}

/// Appends a chunk of a byte stream to a text buffer. `remainder` holds the incomplete scalar
/// at the end of what came before, and afterwards the one at the end of the chunk.
pub fn append_utf8_safe(buffer: &mut String, remainder: &mut Vec<u8>, new_bytes: &[u8])
    ensures
        final(buffer)@ == old(buffer)@ + decoded(old(remainder)@ + new_bytes@),
        final(remainder)@ == undecoded(old(remainder)@ + new_bytes@),
{
    let ghost text0 = buffer@;
    let mut input: Vec<u8> = Vec::new();
    input.append(remainder);
    input.extend_from_slice(new_bytes);
    let ghost all = old(remainder)@ + new_bytes@;
    assert(input@ =~= all);
    let bytes = input.as_slice();
    let mut start: usize = 0;
    let mut at: usize = 0;
    proof {
        assert(all.skip(0) =~= all);
        assert(all.subrange(0, 0) =~= Seq::<u8>::empty());
        assert(decode_utf8(Seq::<u8>::empty()) =~= Seq::<char>::empty());
        assert(decoded(all) =~= decode_utf8(all.subrange(0, 0)) + decoded(all.skip(0)));
    }
    while at < bytes.len()
        invariant
            bytes@ == all,
            start <= at <= all.len(),
            valid_utf8(all.subrange(start as int, at as int)),
            text0 + decoded(all) == buffer@ + decode_utf8(all.subrange(start as int, at as int))
                + decoded(all.skip(at as int)),
            undecoded(all) == undecoded(all.skip(at as int)),
            remainder@.len() == 0,
            all == old(remainder)@ + new_bytes@,
            text0 == old(buffer)@,
        decreases all.len() - at,
    {
        let ghost run = all.subrange(start as int, at as int);
        let ghost rest = all.skip(at as int);
        match scan(bytes, at) {
            Scan::Scalar(n) => {
                proof {
                    lemma_first_scalar_alone(rest);
                    lemma_decode_concat(run, take_first_scalar(rest));
                    assert(run + take_first_scalar(rest) =~= all.subrange(start as int, at + n));
                    assert(pop_first_scalar(rest) =~= all.skip(at + n));
                    let one = seq![decode_first_scalar(rest) as char];
                    assert(buffer@ + decode_utf8(run) + (one + decoded(all.skip(at + n)))
                        =~= buffer@ + (decode_utf8(run) + one) + decoded(all.skip(at + n)));
                }
                at += n;
            },
            Scan::IllFormed(n) => {
                let piece = slice_subrange(bytes, start, at);
                if let Some(text) = utf8_text(piece) {
                    buffer.append(text);
                }
                buffer.append("\u{fffd}");
                proof {
                    reveal_strlit("\u{fffd}");
                    assert("\u{fffd}"@ =~= seq![replacement_character()]);
                    assert(rest.skip(n as int) =~= all.skip(at + n));
                    assert(all.subrange(at + n, at + n) =~= Seq::<u8>::empty());
                    assert(decode_utf8(Seq::<u8>::empty()) =~= Seq::<char>::empty());
                    assert(text0 + decoded(all) =~= buffer@ + Seq::<char>::empty() + decoded(
                        all.skip(at + n),
                    ));
                }
                at += n;
                start = at;
            },
            Scan::Incomplete => {
                let piece = slice_subrange(bytes, start, at);
                if let Some(text) = utf8_text(piece) {
                    buffer.append(text);
                }
                remainder.extend_from_slice(slice_subrange(bytes, at, bytes.len()));
                proof {
                    assert(buffer@ =~= text0 + decoded(all));
                    assert(remainder@ =~= rest);
                }
                return;
            },
        }
    }
    let piece = slice_subrange(bytes, start, at);
    if let Some(text) = utf8_text(piece) {
        buffer.append(text);
    }
    assert(all.skip(at as int) =~= Seq::<u8>::empty());
    assert(buffer@ =~= text0 + decoded(all));
}

/// A byte stream decodes to the same characters however it is cut into pieces: what one piece
/// leaves undecoded goes in front of the next.
pub proof fn law_decoding_in_pieces(a: Seq<u8>, b: Seq<u8>)
    ensures
        decoded(a + b) == decoded(a) + decoded(undecoded(a) + b),
        undecoded(a + b) == undecoded(undecoded(a) + b),
    decreases a.len(),
{
    let whole = a + b;
    if a.len() == 0 {
        assert(whole =~= b);
        assert(undecoded(a) + b =~= b);
        assert(decoded(a) + decoded(b) =~= decoded(b));
    } else {
        assert(whole[0] == a[0]);
        lemma_first_scalar(a);
        lemma_first_scalar(whole);
        if valid_first_scalar(a) {
            assert(starts_with_scalar(whole));
            assert(length_of_first_scalar(whole) == length_of_first_scalar(a));
            assert(decode_first_scalar(whole) == decode_first_scalar(a));
            assert(pop_first_scalar(whole) =~= pop_first_scalar(a) + b);
            law_decoding_in_pieces(pop_first_scalar(a), b);
            let first = seq![decode_first_scalar(a) as char];
            assert(decoded(whole) =~= decoded(a) + decoded(undecoded(a) + b));
        } else {
            match ill_formed_len(a) {
                None => {
                    assert(decoded(a) + decoded(whole) =~= decoded(whole));
                },
                Some(n) => {
                    assert(!starts_with_scalar(whole));
                    assert(ill_formed_len(whole) == Some(n));
                    assert(whole.skip(n as int) =~= a.skip(n as int) + b);
                    law_decoding_in_pieces(a.skip(n as int), b);
                    assert(decoded(whole) =~= decoded(a) + decoded(undecoded(a) + b));
                },
            }
        }
    }
}

proof fn lemma_block_end(s: Seq<char>, from: int)
    requires
        0 <= from <= s.len(),
    ensures
        from <= block_end(s, from) <= s.len(),
        forall|k: int| from <= k < block_end(s, from) ==> delimiter_at(s, k) == 0,
        block_end(s, from) < s.len() ==> delimiter_at(s, block_end(s, from)) > 0,
    decreases s.len() - from,
{
    if from < s.len() && delimiter_at(s, from) == 0 {
        lemma_block_end(s, from + 1);
    }
}

/// Text is framed into the same blocks however it is cut into pieces: what one piece leaves
/// unframed goes in front of the next.
pub proof fn law_framing_in_pieces(a: Seq<char>, b: Seq<char>)
    ensures
        blocks(a + b) == blocks(a) + blocks(unframed(a) + b),
        unframed(a + b) == unframed(unframed(a) + b),
    decreases a.len(),
{
    let whole = a + b;
    let end = block_end(a, 0);
    lemma_block_end(a, 0);
    if end < a.len() {
        assert forall|k: int| 0 <= k < end implies delimiter_at(whole, k) == 0 by {
            assert(delimiter_at(a, k) == 0);
        }
        assert(delimiter_at(whole, end) == delimiter_at(a, end));
        lemma_block_end_is(whole, 0, end);
        assert(whole.take(end) =~= a.take(end));
        assert(after_block(whole) =~= after_block(a) + b);
        law_framing_in_pieces(after_block(a), b);
        assert(blocks(whole) =~= blocks(a) + blocks(unframed(a) + b));
    } else {
        assert(blocks(a) + blocks(whole) =~= blocks(whole));
    }
}

} // verus!
