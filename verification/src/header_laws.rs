//! What holds of the response headers that are passed on or shown.

use crate::headers::{
    bounded, connection_names, entity_names, header_char, header_list, header_name_of,
    hop_by_hop_names, listed_names, named_parts, passed_headers, safe_name, shown_header,
    shown_headers, shown_values, text_le, visible_text, visible_texts,
};
use crate::picking::{lemma_picked_next, lemma_picked_none, picked};
use crate::text::{join, split_on, trimmed};
use vstd::prelude::*;
use vstd::string::*;

verus! {

/// Whether a header holds between two neighbours on the way only.
pub open spec fn between_neighbours(name: Seq<char>) -> bool {
    name == "connection"@ || name == "keep-alive"@ || name == "proxy-authenticate"@ || name
        == "proxy-authorization"@ || name == "proxy-connection"@ || name == "te"@ || name
        == "trailer"@ || name == "trailers"@ || name == "transfer-encoding"@ || name == "upgrade"@
}

/// Whether a text lists a header name: one of its parts between commas is that name, in any case
/// and with white space around it.
pub open spec fn lists(text: Seq<char>, name: Seq<char>) -> bool {
    exists|i: int|
        0 <= i < split_on(text, ',').len() && header_name_of(
            trimmed(#[trigger] split_on(text, ',')[i]),
        ) == Some(name)
}

proof fn lemma_named_parts(parts: Seq<Seq<char>>)
    ensures
        picked(
            parts.len() as int,
            |i: int| header_name_of(trimmed(parts[i])) is Some,
            |i: int| header_name_of(trimmed(parts[i]))->0,
            named_parts(parts),
        ),
    decreases parts.len(),
{
    let keep = |i: int| header_name_of(trimmed(parts[i])) is Some;
    let image = |i: int| header_name_of(trimmed(parts[i]))->0;
    if parts.len() == 0 {
        lemma_picked_none(keep, image);
    } else {
        let front = parts.drop_last();
        lemma_named_parts(front);
        lemma_picked_next(
            front.len() as int,
            |i: int| header_name_of(trimmed(front[i])) is Some,
            |i: int| header_name_of(trimmed(front[i]))->0,
            named_parts(front),
            keep,
            image,
        );
    }
}

proof fn lemma_lists(text: Seq<char>, name: Seq<char>)
    ensures
        named_parts(split_on(text, ',')).contains(name) <==> lists(text, name),
{
    let parts = split_on(text, ',');
    let n = parts.len() as int;
    let keep = |i: int| header_name_of(trimmed(parts[i])) is Some;
    let image = |i: int| header_name_of(trimmed(parts[i]))->0;
    let out = named_parts(parts);
    lemma_named_parts(parts);
    let at = choose|at: Seq<int>| crate::picking::picked_at(n, keep, image, out, at);
    if out.contains(name) {
        let k = choose|k: int| 0 <= k < out.len() && out[k] == name;
        assert(keep(at[k]));
        assert(out[k] == image(at[k]));
        assert(header_name_of(trimmed(parts[at[k]])) == Some(name));
    }
    if lists(text, name) {
        let i = choose|i: int|
            0 <= i < parts.len() && header_name_of(trimmed(#[trigger] parts[i])) == Some(name);
        assert(keep(i));
        assert(at.contains(i));
        let k = choose|k: int| 0 <= k < at.len() && at[k] == i;
        assert(out[k] == name);
    }
}

proof fn lemma_connection_names(values: Seq<Option<Seq<char>>>, name: Seq<char>)
    ensures
        connection_names(values).contains(name) <==> exists|i: int|
            0 <= i < values.len() && (#[trigger] values[i] matches Some(text) && lists(text, name)),
    decreases values.len(),
{
    if values.len() > 0 {
        let front = values.drop_last();
        lemma_connection_names(front, name);
        let a = connection_names(front);
        let b = match values.last() {
            Some(text) => named_parts(split_on(text, ',')),
            None => Seq::empty(),
        };
        if let Some(text) = values.last() {
            lemma_lists(text, name);
        }
        assert((a + b).contains(name) <==> a.contains(name) || b.contains(name)) by {
            if (a + b).contains(name) {
                let k = choose|k: int| 0 <= k < (a + b).len() && (a + b)[k] == name;
                if k < a.len() {
                    assert(a[k] == name);
                } else {
                    assert(b[k - a.len()] == name);
                }
            }
            if a.contains(name) {
                let k = choose|k: int| 0 <= k < a.len() && a[k] == name;
                assert((a + b)[k] == name);
            }
            if b.contains(name) {
                let k = choose|k: int| 0 <= k < b.len() && b[k] == name;
                assert((a + b)[a.len() + k] == name);
            }
        }
        let n = values.len() - 1;
        assert(values[n] == values.last());
        if exists|i: int|
            0 <= i < front.len() && (#[trigger] front[i] matches Some(text) && lists(text, name)) {
            let i = choose|i: int|
                0 <= i < front.len() && (#[trigger] front[i] matches Some(text) && lists(
                    text,
                    name,
                ));
            assert(values[i] == front[i]);
        }
        if exists|i: int|
            0 <= i < values.len() && (#[trigger] values[i] matches Some(text) && lists(
                text,
                name,
            )) {
            let i = choose|i: int|
                0 <= i < values.len() && (#[trigger] values[i] matches Some(text) && lists(
                    text,
                    name,
                ));
            if i < n {
                assert(front[i] == values[i]);
            }
        }
    }
}

proof fn lemma_hop_by_hop(name: Seq<char>)
    ensures
        hop_by_hop_names().contains(name) <==> between_neighbours(name),
{
    let all = hop_by_hop_names();
    if between_neighbours(name) {
        assert(all[0] == "connection"@ && all[1] == "keep-alive"@ && all[2]
            == "proxy-authenticate"@ && all[3] == "proxy-authorization"@ && all[4]
            == "proxy-connection"@ && all[5] == "te"@ && all[6] == "trailer"@ && all[7]
            == "trailers"@ && all[8] == "transfer-encoding"@ && all[9] == "upgrade"@);
    }
}

/// A header is passed on, with its values unchanged, exactly where it does not hold between
/// neighbours only and no printable `Connection` value lists it.
pub proof fn law_which_headers_are_passed_on(
    entries: Map<Seq<char>, Seq<Seq<u8>>>,
    name: Seq<char>,
)
    ensures
        ({
            let listed = entries.contains_key("connection"@) && exists|i: int|
                0 <= i < entries["connection"@].len() && (visible_text(
                    #[trigger] entries["connection"@][i],
                ) matches Some(text) && lists(text, name));
            &&& passed_headers(entries).contains_key(name) <==> entries.contains_key(name)
                && !between_neighbours(name) && !listed
            &&& passed_headers(entries).contains_key(name) ==> passed_headers(entries)[name]
                == entries[name]
        }),
{
    lemma_hop_by_hop(name);
    let values = entries["connection"@];
    let texts = visible_texts(values);
    lemma_connection_names(texts, name);
    if exists|i: int|
        0 <= i < texts.len() && (#[trigger] texts[i] matches Some(text) && lists(text, name)) {
        let i = choose|i: int|
            0 <= i < texts.len() && (#[trigger] texts[i] matches Some(text) && lists(text, name));
        assert(visible_text(values[i]) == texts[i]);
    }
    if exists|i: int|
        0 <= i < values.len() && (visible_text(#[trigger] values[i]) matches Some(text) && lists(
            text,
            name,
        )) {
        let i = choose|i: int|
            0 <= i < values.len() && (visible_text(#[trigger] values[i]) matches Some(text)
                && lists(text, name));
        assert(texts[i] == visible_text(values[i]));
    }
    let gone = hop_by_hop_names().to_set() + listed_names(entries).to_set();
    assert(gone.contains(name) <==> hop_by_hop_names().contains(name) || listed_names(
        entries,
    ).contains(name));
}

/// A body that was decoded loses the three headers that told of its encoding and length.
pub proof fn law_which_headers_tell_of_the_encoding(name: Seq<char>)
    ensures
        entity_names().to_set().contains(name) <==> name == "content-encoding"@ || name
            == "content-length"@ || name == "transfer-encoding"@,
{
    let all = entity_names();
    assert(all[0] == "content-encoding"@ && all[1] == "content-length"@ && all[2]
        == "transfer-encoding"@);
}

/// A header value is printable where each of its bytes is printable ASCII or a tab, and then its
/// text has one character for each byte.
pub proof fn law_which_values_are_printable(value: Seq<u8>)
    ensures
        visible_text(value) is Some <==> forall|i: int|
            0 <= i < value.len() ==> 32 <= #[trigger] value[i] <= 126 || value[i] == 9,
        visible_text(value) is Some ==> visible_text(value)->0.len() == value.len() && forall|
            i: int,
        | 0 <= i < value.len() ==> #[trigger] visible_text(value)->0[i] as u32 == value[i],
{
    if visible_text(value) is Some {
        assert forall|i: int| 0 <= i < value.len() implies 32 <= #[trigger] value[i] <= 126
            || value[i] == 9 by {
            assert(crate::headers::visible_byte(value[i]));
        }
    }
}

/// Whether a character may stand in a token, by its number.
pub open spec fn token_char(c: char) -> bool {
    let n = c as u32;
    n == 33 || 35 <= n <= 39 || n == 42 || n == 43 || n == 45 || n == 46 || 48 <= n <= 57 || 65 <= n
        <= 90 || 94 <= n <= 122 || n == 124 || n == 126
}

proof fn lemma_token_char(c: char)
    ensures
        token_char(c) <==> header_char(c),
{
}

/// A header name is a token of limited length, and is read in lower case.
pub proof fn law_what_a_header_name_is(text: Seq<char>)
    ensures
        header_name_of(text) is Some <==> 0 < text.len() <= 65535 && forall|i: int|
            0 <= i < text.len() ==> token_char(#[trigger] text[i]),
        header_name_of(text) is Some ==> header_name_of(text)->0.len() == text.len() && forall|
            i: int,
        |
            0 <= i < text.len() ==> ({
                let c = #[trigger] text[i];
                let d = header_name_of(text)->0[i];
                &&& 'A' <= c <= 'Z' ==> d as u32 == c as u32 + 32
                &&& !('A' <= c <= 'Z') ==> d == c
            }),
{
    if 0 < text.len() <= 65535 && forall|i: int|
        0 <= i < text.len() ==> token_char(#[trigger] text[i]) {
        assert forall|i: int| 0 <= i < text.len() implies header_char(#[trigger] text[i]) by {
            assert(token_char(text[i]));
            lemma_token_char(text[i]);
        }
    }
    if header_name_of(text) is Some {
        assert forall|i: int| 0 <= i < text.len() implies token_char(#[trigger] text[i]) by {
            assert(header_char(text[i]));
            lemma_token_char(text[i]);
        }
    }
}

/// The names whose values may show in the log.
pub proof fn law_which_values_may_show(name: Seq<char>)
    ensures
        safe_name(name) <==> name == "content-type"@ || name == "content-encoding"@ || name
            == "content-length"@ || name == "retry-after"@ || name == "cf-ray"@ || name
            == "x-request-id"@ || name == "request-id"@ || name == "x-correlation-id"@
            || "x-ratelimit-"@.is_prefix_of(name) || "ratelimit-"@.is_prefix_of(name),
{
}

proof fn lemma_shown_values(values: Seq<Option<Seq<char>>>)
    ensures
        picked(
            values.len() as int,
            |i: int| values[i] is Some,
            |i: int| bounded(values[i]->0),
            shown_values(values),
        ),
    decreases values.len(),
{
    let keep = |i: int| values[i] is Some;
    let image = |i: int| bounded(values[i]->0);
    if values.len() == 0 {
        lemma_picked_none(keep, image);
    } else {
        let front = values.drop_last();
        lemma_shown_values(front);
        lemma_picked_next(
            front.len() as int,
            |i: int| front[i] is Some,
            |i: int| bounded(front[i]->0),
            shown_values(front),
            keep,
            image,
        );
    }
}

/// A header shows in the log by its name; with a safe name its printable values follow, in order,
/// each cut after a hundred and sixty characters with a mark where it was longer.
pub proof fn law_how_a_header_shows(name: Seq<char>, values: Seq<Option<Seq<char>>>, value: Seq<char>)
    ensures
        value.len() <= 160 ==> bounded(value) == value,
        value.len() > 160 ==> bounded(value) == value.take(160) + seq!['…'],
        !safe_name(name) ==> shown_header(name, values) == name,
        safe_name(name) ==> exists|shown: Seq<Seq<char>>|
            shown_header(name, values) == (if shown.len() > 0 {
                name + seq!['='] + #[trigger] join(shown, seq!['|'])
            } else {
                name
            }) && picked(
                values.len() as int,
                |i: int| values[i] is Some,
                |i: int| bounded(values[i]->0),
                shown,
            ),
{
    reveal_strlit("…");
    reveal_strlit("=");
    reveal_strlit("|");
    assert("…"@ =~= seq!['…']);
    assert("="@ =~= seq!['=']);
    assert("|"@ =~= seq!['|']);
    lemma_shown_values(values);
    let shown = shown_values(values);
    assert(join(shown, seq!['|']).len() >= 0);
}

/// Texts are ordered by their first characters that differ, and a text stands before those that
/// begin with it.
pub proof fn law_how_texts_are_ordered(
    common: Seq<char>,
    a: char,
    b: char,
    rest_a: Seq<char>,
    rest_b: Seq<char>,
)
    ensures
        text_le(common, common + rest_a),
        a < b ==> text_le(common + seq![a] + rest_a, common + seq![b] + rest_b) && !text_le(
            common + seq![b] + rest_b,
            common + seq![a] + rest_a,
        ),
        !text_le(common + seq![a] + rest_a, common),
    decreases common.len(),
{
    let x = common + seq![a] + rest_a;
    let y = common + seq![b] + rest_b;
    let z = common + rest_a;
    if common.len() > 0 {
        let less = common.drop_first();
        law_how_texts_are_ordered(less, a, b, rest_a, rest_b);
        assert(x.drop_first() =~= less + seq![a] + rest_a);
        assert(y.drop_first() =~= less + seq![b] + rest_b);
        assert(z.drop_first() =~= less + rest_a);
    } else {
        assert(x[0] == a);
        assert(y[0] == b);
    }
}

/// Whether a text shows one of the headers.
pub open spec fn shows_one_of(entries: Map<Seq<char>, Seq<Seq<u8>>>, text: Seq<char>) -> bool {
    exists|name: Seq<char>| #[trigger]
        entries.contains_key(name) && text == shown_header(name, visible_texts(entries[name]))
}

/// The list for the log shows every header, nothing but headers, as many texts as there are
/// headers, and no text before one that stands in front of it.
pub proof fn law_the_log_lists_every_header(
    entries: Map<Seq<char>, Seq<Seq<u8>>>,
    order: Seq<Seq<char>>,
)
    requires
        header_list(entries, order),
    ensures
        order.len() == entries.dom().len(),
        forall|name: Seq<char>| #[trigger]
            entries.contains_key(name) ==> order.contains(
                shown_header(name, visible_texts(entries[name])),
            ),
        forall|i: int| 0 <= i < order.len() ==> shows_one_of(entries, #[trigger] order[i]),
        forall|i: int, j: int| 0 <= i < j < order.len() ==> text_le(order[i], order[j]),
{
    broadcast use vstd::seq_lib::group_to_multiset_ensures;

    let names = choose|names: Seq<Seq<char>>| #[trigger]
        names.no_duplicates() && names.to_set() == entries.dom() && order.to_multiset()
            == shown_headers(entries, names).to_multiset();
    let shown = shown_headers(entries, names);
    names.unique_seq_to_set();
    assert(order.to_multiset().len() == order.len() && shown.to_multiset().len() == shown.len());
    assert forall|name: Seq<char>| #[trigger] entries.contains_key(name) implies order.contains(
        shown_header(name, visible_texts(entries[name])),
    ) by {
        assert(names.to_set().contains(name));
        let k = choose|k: int| 0 <= k < names.len() && names[k] == name;
        assert(shown.contains(shown[k]));
        assert(shown.to_multiset().count(shown[k]) > 0);
    }
    assert forall|i: int| 0 <= i < order.len() implies shows_one_of(
        entries,
        #[trigger] order[i],
    ) by {
        assert(order.contains(order[i]));
        assert(order.to_multiset().count(order[i]) > 0);
        assert(shown.contains(order[i]));
        let k = choose|k: int| 0 <= k < shown.len() && shown[k] == order[i];
        assert(names.to_set().contains(names[k]));
        assert(entries.contains_key(names[k]));
    }
}

} // verus!
