//! What holds of texts, of the fields and blocks of a stream, and of JSON values.

use crate::json::{
    distinct_names, entries_map, json_member, json_member2, json_string, json_unsigned, json_view,
    Json,
};
use crate::picking::{lemma_picked_first, lemma_picked_next, lemma_picked_none, picked};
use crate::sse::{
    block_data, block_event, blocks, data_values, decoded, delimiter_at, field_value, field_values,
    ill_formed_len, lemma_first_scalar, undecoded, unframed,
};
use crate::text::{
    decimal, digit, join, lemma_find_char_is, lines, split_on, trim_end, trim_newlines, trim_start,
    trimmed, white_space,
};
use vstd::prelude::*;
use vstd::string::*;
use vstd::utf8::*;

verus! {

/// The characters that count as white space, by their numbers.
pub proof fn law_what_white_space_is(c: char)
    ensures
        white_space(c) <==> ({
            let n = c as u32;
            9 <= n <= 13 || n == 32 || n == 133 || n == 160 || n == 5760 || 8192 <= n <= 8202 || n
                == 8232 || n == 8233 || n == 8239 || n == 8287 || n == 12288
        }),
{
}

proof fn lemma_trim_start(s: Seq<char>)
    ensures
        ({
            let i = s.len() - trim_start(s).len();
            &&& 0 <= i <= s.len()
            &&& trim_start(s) == s.skip(i)
            &&& forall|k: int| 0 <= k < i ==> white_space(#[trigger] s[k])
            &&& i < s.len() ==> !white_space(s[i])
        }),
    decreases s.len(),
{
    if s.len() > 0 && white_space(s[0]) {
        let rest = s.drop_first();
        lemma_trim_start(rest);
        let i = s.len() - trim_start(s).len();
        assert(s.skip(i) =~= rest.skip(i - 1));
        assert forall|k: int| 0 <= k < i implies white_space(#[trigger] s[k]) by {
            if k > 0 {
                assert(white_space(rest[k - 1]));
            }
        }
        if i < s.len() {
            assert(s[i] == rest[i - 1]);
        }
    } else {
        assert(s.skip(0) =~= s);
    }
}

proof fn lemma_trim_end(s: Seq<char>)
    ensures
        ({
            let j = trim_end(s).len() as int;
            &&& 0 <= j <= s.len()
            &&& trim_end(s) == s.take(j)
            &&& forall|k: int| j <= k < s.len() ==> white_space(#[trigger] s[k])
            &&& j > 0 ==> !white_space(s[j - 1])
        }),
    decreases s.len(),
{
    if s.len() > 0 && white_space(s.last()) {
        let rest = s.drop_last();
        lemma_trim_end(rest);
        let j = trim_end(s).len() as int;
        assert(s.take(j) =~= rest.take(j));
        assert forall|k: int| j <= k < s.len() implies white_space(#[trigger] s[k]) by {
            if k < rest.len() {
                assert(white_space(rest[k]));
            }
        }
    } else {
        assert(s.take(s.len() as int) =~= s);
    }
}

/// Trimming takes white space off both ends of a text, all of it, and nothing else.
pub proof fn law_trimming_takes_white_space_off_the_ends(s: Seq<char>)
    ensures
        exists|i: int, j: int|
            #![trigger s.subrange(i, j)]
            0 <= i <= j <= s.len() && trimmed(s) == s.subrange(i, j) && (forall|k: int|
                0 <= k < i || j <= k < s.len() ==> white_space(#[trigger] s[k])) && (i < j
                ==> !white_space(s[i]) && !white_space(s[j - 1])),
{
    lemma_trim_start(s);
    let a = trim_start(s);
    lemma_trim_end(a);
    let i = s.len() - a.len();
    let j = i + trimmed(s).len();
    assert(s.subrange(i, j) =~= trimmed(s));
    assert forall|k: int| 0 <= k < i || j <= k < s.len() implies white_space(#[trigger] s[k]) by {
        if k >= j {
            assert(a[k - i] == s[k]);
        }
    }
}

/// A text is blank exactly where all of it is white space.
pub proof fn law_a_blank_text_is_white_space(s: Seq<char>)
    ensures
        trimmed(s).len() == 0 <==> forall|k: int| 0 <= k < s.len() ==> white_space(#[trigger] s[k]),
{
    law_trimming_takes_white_space_off_the_ends(s);
    let (i, j) = choose|i: int, j: int|
        #![trigger s.subrange(i, j)]
        0 <= i <= j <= s.len() && trimmed(s) == s.subrange(i, j) && (forall|k: int|
            0 <= k < i || j <= k < s.len() ==> white_space(#[trigger] s[k])) && (i < j
            ==> !white_space(s[i]) && !white_space(s[j - 1]));
    if trimmed(s).len() == 0 {
        assert(i == j);
    } else {
        assert(!white_space(s[i]));
    }
}

/// Only line breaks at the end are taken off a block, and all of them.
pub proof fn law_line_breaks_are_taken_off_the_end(s: Seq<char>)
    ensures
        ({
            let n = trim_newlines(s).len() as int;
            &&& 0 <= n <= s.len()
            &&& trim_newlines(s) == s.take(n)
            &&& forall|k: int| n <= k < s.len() ==> #[trigger] s[k] == '\n' || s[k] == '\r'
            &&& n > 0 ==> s[n - 1] != '\n' && s[n - 1] != '\r'
        }),
    decreases s.len(),
{
    if s.len() > 0 && (s.last() == '\r' || s.last() == '\n') {
        let rest = s.drop_last();
        law_line_breaks_are_taken_off_the_end(rest);
        let n = trim_newlines(s).len() as int;
        assert(s.take(n) =~= rest.take(n));
        assert forall|k: int| n <= k < s.len() implies #[trigger] s[k] == '\n' || s[k] == '\r' by {
            if k < rest.len() {
                assert(rest[k] == '\n' || rest[k] == '\r');
            }
        }
    } else {
        assert(s.take(s.len() as int) =~= s);
    }
}

/// A text is parted at every separator and nowhere else.
pub proof fn law_a_text_is_parted_at_its_separators(first: Seq<char>, rest: Seq<char>, sep: char)
    requires
        !first.contains(sep),
    ensures
        split_on(first, sep) == seq![first],
        split_on(first + seq![sep] + rest, sep) == seq![first] + split_on(rest, sep),
{
    assert forall|k: int| 0 <= k < first.len() implies first[k] != sep by {
        assert(first.contains(first[k]));
    }
    lemma_find_char_is(first, sep, first.len() as int);
    let s = first + seq![sep] + rest;
    assert forall|k: int| 0 <= k < first.len() implies s[k] != sep by {
        assert(s[k] == first[k]);
    }
    lemma_find_char_is(s, sep, first.len() as int);
    assert(s.take(first.len() as int) =~= first);
    assert(s.skip(first.len() as int + 1) =~= rest);
}

/// A line ends at a newline, without the one carriage return that may stand before it; what
/// follows the last newline is a line where it is not empty, carriage return and all.
pub proof fn law_a_text_is_read_line_by_line(line: Seq<char>, rest: Seq<char>)
    requires
        !line.contains('\n'),
    ensures
        lines(Seq::empty()).len() == 0,
        line.len() > 0 ==> lines(line) == seq![line],
        line.len() > 0 && line.last() == '\r' ==> lines(line + seq!['\n'] + rest) == seq![
            line.take(line.len() - 1),
        ] + lines(rest),
        line.len() == 0 || line.last() != '\r' ==> lines(line + seq!['\n'] + rest) == seq![line]
            + lines(rest),
{
    assert forall|k: int| 0 <= k < line.len() implies line[k] != '\n' by {
        assert(line.contains(line[k]));
    }
    lemma_find_char_is(line, '\n', line.len() as int);
    let s = line + seq!['\n'] + rest;
    assert forall|k: int| 0 <= k < line.len() implies s[k] != '\n' by {
        assert(s[k] == line[k]);
    }
    lemma_find_char_is(s, '\n', line.len() as int);
    assert(s.take(line.len() as int) =~= line);
    assert(s.skip(line.len() as int + 1) =~= rest);
    if line.len() > 0 {
        assert(line.take(line.len() - 1) =~= line.drop_last());
    }
}

/// Joining puts the separator between neighbours and nowhere else.
pub proof fn law_joining_puts_separators_between(
    parts: Seq<Seq<char>>,
    part: Seq<char>,
    sep: Seq<char>,
)
    ensures
        join(Seq::empty(), sep).len() == 0,
        join(seq![part], sep) == part,
        parts.len() > 0 ==> join(parts.push(part), sep) == join(parts, sep) + sep + part,
{
    assert(parts.push(part).drop_last() =~= parts);
}

/// The number that a numeral stands for.
pub open spec fn value_of(numeral: Seq<char>) -> nat
    decreases numeral.len(),
{
    if numeral.len() == 0 {
        0
    } else {
        (value_of(numeral.drop_last()) * 10 + (numeral.last() as nat - 48)) as nat
    }
}

/// A numeral is made of digits, has no leading zero, and stands for its number.
pub proof fn law_a_numeral_stands_for_its_number(n: nat)
    ensures
        value_of(decimal(n)) == n,
        decimal(n).len() > 0,
        forall|i: int| 0 <= i < decimal(n).len() ==> '0' <= #[trigger] decimal(n)[i] <= '9',
        n > 0 ==> decimal(n)[0] != '0',
        n == 0 ==> decimal(n) == seq!['0'],
    decreases n,
{
    assert('0' as nat == 48);
    let d = n % 10;
    assert(digit(d) as nat == 48 + d);
    if n >= 10 {
        law_a_numeral_stands_for_its_number(n / 10);
        let front = decimal(n / 10);
        assert(decimal(n).drop_last() =~= front);
        assert(decimal(n)[0] == front[0]);
        assert forall|i: int| 0 <= i < decimal(n).len() implies '0' <= #[trigger] decimal(n)[i]
            <= '9' by {
            if i < front.len() {
                assert(decimal(n)[i] == front[i]);
            }
        }
    } else {
        assert(decimal(n).drop_last() =~= Seq::empty());
        assert(value_of(Seq::empty()) == 0);
        assert(decimal(n) =~= seq![digit(n)]);
    }
}

/// The value of a field line is what follows the field's name and the colon, without one space
/// there; a line that does not begin so has no value.
pub proof fn law_how_a_field_line_is_read(field: Seq<char>, value: Seq<char>, line: Seq<char>)
    ensures
        value.len() == 0 || value[0] != ' ' ==> field_value(field + seq![':'] + value, field)
            == Some(value),
        field_value(field + seq![':', ' '] + value, field) == Some(value),
        !(field + seq![':']).is_prefix_of(line) ==> field_value(line, field) is None,
{
    let name = field.push(':');
    assert(name =~= field + seq![':']);
    let bare = field + seq![':'] + value;
    assert(name.is_prefix_of(bare)) by {
        assert(bare.subrange(0, name.len() as int) =~= name);
    }
    assert(bare.skip(name.len() as int) =~= value);
    if value.len() == 0 || value[0] != ' ' {
        if name.push(' ').is_prefix_of(bare) {
            assert(bare.subrange(0, name.len() as int + 1)[name.len() as int] == ' ');
            assert(bare[name.len() as int] == value[0]);
        }
    }
    let spaced = field + seq![':', ' '] + value;
    assert(name.push(' ').is_prefix_of(spaced)) by {
        assert(spaced.subrange(0, name.len() as int + 1) =~= name.push(' '));
    }
    assert(spaced.skip(name.len() as int + 1) =~= value);
    if name.push(' ').is_prefix_of(line) {
        assert(name.is_prefix_of(line)) by {
            assert(line.subrange(0, name.len() as int) =~= name) by {
                assert(line.subrange(0, name.len() as int + 1) =~= name.push(' '));
                assert forall|k: int| 0 <= k < name.len() implies line[k] == name[k] by {
                    assert(line.subrange(0, name.len() as int + 1)[k] == line[k]);
                    assert(name.push(' ')[k] == name[k]);
                }
            }
        }
    }
}

proof fn lemma_field_values(all: Seq<Seq<char>>, field: Seq<char>)
    ensures
        picked(
            all.len() as int,
            |i: int| field_value(all[i], field) is Some,
            |i: int| field_value(all[i], field)->0,
            field_values(all, field),
        ),
    decreases all.len(),
{
    let keep = |i: int| field_value(all[i], field) is Some;
    let image = |i: int| field_value(all[i], field)->0;
    if all.len() == 0 {
        lemma_picked_none(keep, image);
    } else {
        let front = all.drop_last();
        lemma_field_values(front, field);
        lemma_picked_next(
            front.len() as int,
            |i: int| field_value(front[i], field) is Some,
            |i: int| field_value(front[i], field)->0,
            field_values(front, field),
            keep,
            image,
        );
    }
}

/// The payload of a block is made of the values of all of its `data` lines, in order, with a
/// newline between neighbours; its name is the value of its first `event` line.
pub proof fn law_what_a_block_carries(block: Seq<char>, first: int)
    requires
        0 <= first <= lines(block).len(),
        forall|k: int|
            0 <= k < first ==> field_value(#[trigger] lines(block)[k], "event"@) is None,
        first < lines(block).len() ==> field_value(lines(block)[first], "event"@) is Some,
    ensures
        picked(
            lines(block).len() as int,
            |i: int| field_value(lines(block)[i], "data"@) is Some,
            |i: int| field_value(lines(block)[i], "data"@)->0,
            data_values(block),
        ),
        block_data(block) == join(data_values(block), seq!['\n']),
        first < lines(block).len() ==> block_event(block) == field_value(
            lines(block)[first],
            "event"@,
        ),
        first == lines(block).len() ==> block_event(block) is None,
{
    let all = lines(block);
    reveal_strlit("\n");
    assert("\n"@ =~= seq!['\n']);
    lemma_field_values(all, "data"@);
    lemma_field_values(all, "event"@);
    let keep = |i: int| field_value(all[i], "event"@) is Some;
    let image = |i: int| field_value(all[i], "event"@)->0;
    assert forall|k: int| 0 <= k < first implies !#[trigger] keep(k) by {
        assert(field_value(all[k], "event"@) is None);
    }
    lemma_picked_first(all.len() as int, keep, image, field_values(all, "event"@), first);
}

/// Whether two newlines, or two newlines with a carriage return before each, stand at a position.
pub open spec fn delimiter_stands(s: Seq<char>, i: int) -> bool {
    0 <= i && ((i + 2 <= s.len() && s.subrange(i, i + 2) == seq!['\n', '\n']) || (i + 4 <= s.len()
        && s.subrange(i, i + 4) == seq!['\r', '\n', '\r', '\n']))
}

proof fn lemma_delimiter(s: Seq<char>, i: int)
    ensures
        delimiter_stands(s, i) <==> delimiter_at(s, i) > 0,
        delimiter_at(s, i) > 0 ==> (delimiter_at(s, i) == 2 && s.subrange(i, i + 2) == seq![
            '\n',
            '\n',
        ]) || (delimiter_at(s, i) == 4 && s.subrange(i, i + 4) == seq!['\r', '\n', '\r', '\n']),
        delimiter_at(s, i) > 0 ==> i + delimiter_at(s, i) <= s.len(),
{
    if 0 <= i && i + 2 <= s.len() {
        let a = s.subrange(i, i + 2);
        assert(a[0] == s[i] && a[1] == s[i + 1]);
        if s[i] == '\n' && s[i + 1] == '\n' {
            assert(a =~= seq!['\n', '\n']);
        }
    }
    if 0 <= i && i + 4 <= s.len() {
        let b = s.subrange(i, i + 4);
        assert(b[0] == s[i] && b[1] == s[i + 1] && b[2] == s[i + 2] && b[3] == s[i + 3]);
        if s[i] == '\r' && s[i + 1] == '\n' && s[i + 2] == '\r' && s[i + 3] == '\n' {
            assert(b =~= seq!['\r', '\n', '\r', '\n']);
        }
    }
}

/// Text is cut into blocks at the first delimiter, then at the next, and so on; what follows the
/// last one stays unframed. The delimiters are in no block, and everything else is in one.
pub proof fn law_where_blocks_end(s: Seq<char>, end: int)
    requires
        0 <= end <= s.len(),
        forall|k: int| 0 <= k < end ==> !#[trigger] delimiter_stands(s, k),
        end < s.len() ==> delimiter_stands(s, end),
    ensures
        end == s.len() ==> blocks(s).len() == 0 && unframed(s) == s,
        end < s.len() ==> ({
            let rest = if s[end] == '\n' {
                s.skip(end + 2)
            } else {
                s.skip(end + 4)
            };
            &&& blocks(s) == seq![s.take(end)] + blocks(rest)
            &&& unframed(s) == unframed(rest)
        }),
{
    assert forall|k: int| 0 <= k < end implies delimiter_at(s, k) == 0 by {
        lemma_delimiter(s, k);
        assert(!delimiter_stands(s, k));
    }
    lemma_delimiter(s, end);
    crate::sse::lemma_block_end_is(s, 0, end);
    if end < s.len() {
        let n = delimiter_at(s, end);
        if n == 2 {
            assert(s.subrange(end, end + 2)[0] == s[end]);
        } else {
            assert(s.subrange(end, end + 4)[0] == s[end]);
        }
    }
}

/// Bytes that are UTF-8 throughout are decoded to the text that they encode, and nothing of them
/// is left over.
pub proof fn law_valid_bytes_are_decoded_as_they_are(bytes: Seq<u8>, text: Seq<char>)
    ensures
        valid_utf8(bytes) ==> decoded(bytes) == decode_utf8(bytes) && undecoded(bytes).len() == 0,
        decoded(encode_utf8(text)) == text && undecoded(encode_utf8(text)).len() == 0,
{
    if valid_utf8(bytes) {
        lemma_decoded(bytes);
    }
    encode_utf8_valid_utf8(text);
    encode_utf8_decode_utf8(text);
    lemma_decoded(encode_utf8(text));
}

proof fn lemma_decoded(bytes: Seq<u8>)
    requires
        valid_utf8(bytes),
    ensures
        decoded(bytes) == decode_utf8(bytes),
        undecoded(bytes).len() == 0,
    decreases bytes.len(),
{
    if bytes.len() > 0 {
        lemma_decoded(pop_first_scalar(bytes));
    } else {
        assert(decode_utf8(bytes) =~= Seq::empty());
    }
}

/// What is left undecoded is the end of the bytes, and shorter than the longest character.
pub proof fn law_only_the_start_of_a_character_is_left_over(bytes: Seq<u8>)
    ensures
        undecoded(bytes).len() <= bytes.len(),
        undecoded(bytes).len() < 4,
        undecoded(bytes) == bytes.skip(bytes.len() - undecoded(bytes).len()),
    decreases bytes.len(),
{
    if bytes.len() == 0 {
        assert(bytes.skip(0) =~= undecoded(bytes));
    } else if valid_first_scalar(bytes) {
        let rest = pop_first_scalar(bytes);
        law_only_the_start_of_a_character_is_left_over(rest);
        let n = undecoded(bytes).len();
        assert(bytes.skip(bytes.len() - n) =~= rest.skip(rest.len() - n));
    } else {
        match ill_formed_len(bytes) {
            None => {
                assert(bytes.skip(0) =~= bytes);
            },
            Some(k) => {
                let rest = bytes.skip(k as int);
                law_only_the_start_of_a_character_is_left_over(rest);
                let n = undecoded(bytes).len();
                assert(bytes.skip(bytes.len() - n) =~= rest.skip(rest.len() - n));
            },
        }
    }
}

/// Whether a byte may stand behind the first one of a character.
pub open spec fn follows(byte: u8) -> bool {
    0x80 <= byte < 0xc0
}

/// Whether the second byte rules out that the first one begins a character: where it cannot stand
/// behind a first one, or where the character would be too long for its value, a surrogate, or
/// above the last one.
pub open spec fn ruled_out(first: u8, second: u8) -> bool {
    ||| !follows(second)
    ||| first == 0xe0 && second < 0xa0
    ||| first == 0xed && second > 0x9f
    ||| first == 0xf0 && second < 0x90
    ||| first == 0xf4 && second > 0x8f
}

/// Whether the first `n` bytes become one replacement character, and decoding goes on behind them.
pub open spec fn replaced(bytes: Seq<u8>, n: int) -> bool {
    &&& decoded(bytes) == seq!['\u{fffd}'] + decoded(bytes.skip(n))
    &&& undecoded(bytes) == undecoded(bytes.skip(n))
}

/// Whether the bytes wait for more of them.
pub open spec fn waits(bytes: Seq<u8>) -> bool {
    decoded(bytes).len() == 0 && undecoded(bytes) == bytes
}

/// The start of a character that is not the start of one after all becomes one replacement
/// character; one that may still be completed waits for the bytes to come.
pub proof fn law_what_is_no_character_is_replaced(bytes: Seq<u8>)
    requires
        bytes.len() > 0,
    ensures
        ({
            let first = bytes[0];
            let long = 0xe0 <= first < 0xf5;
            &&& 0x80 <= first < 0xc2 || first >= 0xf5 ==> replaced(bytes, 1)
            &&& 0xc2 <= first < 0xf5 && bytes.len() == 1 ==> waits(bytes)
            &&& 0xc2 <= first < 0xe0 && bytes.len() > 1 && !follows(bytes[1]) ==> replaced(bytes, 1)
            &&& long && bytes.len() > 1 && ruled_out(first, bytes[1]) ==> replaced(bytes, 1)
            &&& long && bytes.len() > 1 && !ruled_out(first, bytes[1]) ==> {
                &&& bytes.len() == 2 ==> waits(bytes)
                &&& bytes.len() > 2 && !follows(bytes[2]) ==> replaced(bytes, 2)
                &&& first >= 0xf0 && bytes.len() > 2 && follows(bytes[2]) ==> {
                    &&& bytes.len() == 3 ==> waits(bytes)
                    &&& bytes.len() > 3 && !follows(bytes[3]) ==> replaced(bytes, 3)
                }
            }
        }),
{
    lemma_first_scalar(bytes);
    if bytes.len() > 1 {
        lemma_follows(bytes[1]);
    }
    if bytes.len() > 2 {
        lemma_follows(bytes[2]);
    }
    if bytes.len() > 3 {
        lemma_follows(bytes[3]);
    }
}

proof fn lemma_follows(byte: u8)
    ensures
        is_continuation_byte(byte) == follows(byte),
{
    assert(byte & 0xc0 == 0x80 <==> 0x80 <= byte < 0xc0) by (bit_vector);
}

/// A member of an object is what stands under its name; nothing else has members. Only strings
/// have characters, and only unsigned integers are read as numbers.
pub proof fn law_how_json_is_read(value: Json, outer: Seq<char>, inner: Seq<char>)
    ensures
        match value {
            Json::Object(members) => json_member(value, outer) == (if members.contains_key(outer) {
                Some(members[outer])
            } else {
                None
            }),
            _ => json_member(value, outer) is None,
        },
        json_member(value, outer) is None ==> json_member2(value, outer, inner) is None,
        json_member(value, outer) is Some ==> json_member2(value, outer, inner) == json_member(
            json_member(value, outer)->0,
            inner,
        ),
        json_string(None) is None && json_unsigned(None) is None,
        json_string(Some(value)) is Some <==> value is Text,
        value is Text ==> json_string(Some(value)) == Some(value->Text_0),
        json_unsigned(Some(value)) is Some <==> value is Unsigned,
        value is Unsigned ==> json_unsigned(Some(value)) == Some(value->Unsigned_0),
{
}

/// An object that is made of entries has each of them as a member, the last one of a name, and no
/// other.
pub proof fn law_an_object_has_the_members_that_it_is_made_of(
    entries: Seq<(String, serde_json::Value)>,
    name: String,
    value: serde_json::Value,
)
    ensures
        entries_map(Seq::empty()) == Map::<Seq<char>, Json>::empty(),
        entries_map(entries.push((name, value))) == entries_map(entries).insert(
            name@,
            json_view(value),
        ),
{
    assert(entries.push((name, value)).drop_last() =~= entries);
}

/// Where no name occurs twice, no entry takes the place of another one.
pub proof fn law_entries_with_names_of_their_own_are_kept(
    entries: Seq<(String, serde_json::Value)>,
    i: int,
)
    requires
        distinct_names(entries),
        0 <= i < entries.len(),
    ensures
        entries_map(entries).contains_key(entries[i].0@),
        entries_map(entries)[entries[i].0@] == json_view(entries[i].1),
    decreases entries.len(),
{
    if i < entries.len() - 1 {
        let rest = entries.drop_last();
        assert forall|a: int, b: int| 0 <= a < b < rest.len() implies (#[trigger] rest[a]).0@ != (
        #[trigger] rest[b]).0@ by {
            assert(rest[a] == entries[a] && rest[b] == entries[b]);
        }
        law_entries_with_names_of_their_own_are_kept(rest, i);
        assert(rest[i] == entries[i]);
        assert(entries[i].0@ != entries[entries.len() - 1].0@);
    }
}

} // verus!
