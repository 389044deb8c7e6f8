//! Response headers: which of them are passed on, and how they show in the log.

use crate::text::{
    chars_of, concat2, concat3, join, join_strings, split, split_on, starts_with, str_eq, trim,
    trimmed,
};
use http::HeaderMap;
use vstd::prelude::*;
use vstd::string::*;

verus! {

#[verifier::external_type_specification]
#[verifier::external_body]
#[verifier::reject_recursive_types(T)]
pub struct ExHeaderMap<T>(http::HeaderMap<T>);

#[verifier::external_type_specification]
#[verifier::external_body]
pub struct ExHeaderValue(http::HeaderValue);

/// The names in a header map with their values, in the order in which these were added.
pub uninterp spec fn header_entries(headers: http::HeaderMap) -> Map<Seq<char>, Seq<Seq<u8>>>;

/// Whether a byte is printable ASCII or a tab.
pub open spec fn visible_byte(byte: u8) -> bool {
    32 <= byte < 127 || byte == 9
}

/// The text of a header value, where all of it is printable.
pub open spec fn visible_text(value: Seq<u8>) -> Option<Seq<char>> {
    if forall|i: int| 0 <= i < value.len() ==> visible_byte(#[trigger] value[i]) {
        Some(value.map_values(|byte: u8| byte as char))
    } else {
        None
    }
}

pub open spec fn visible_texts(values: Seq<Seq<u8>>) -> Seq<Option<Seq<char>>> {
    values.map_values(|value: Seq<u8>| visible_text(value))
}

/// Whether a character may stand in a header name.
pub open spec fn header_char(c: char) -> bool {
    ||| c == '!'
    ||| '#' <= c <= '\''
    ||| c == '*'
    ||| c == '+'
    ||| c == '-'
    ||| c == '.'
    ||| '0' <= c <= '9'
    ||| 'A' <= c <= 'Z'
    ||| '^' <= c <= 'z'
    ||| c == '|'
    ||| c == '~'
}

/// A character in lower case.
pub open spec fn lower(c: char) -> char {
    if 'A' <= c <= 'Z' {
        ((c as u32 + 32) as u32) as char
    } else {
        c
    }
}

/// The header name that a text stands for: the text in lower case, where it is a name at all.
pub open spec fn header_name_of(text: Seq<char>) -> Option<Seq<char>> {
    if 0 < text.len() <= 65535 && forall|i: int|
        0 <= i < text.len() ==> header_char(#[trigger] text[i]) {
        Some(text.map_values(|c: char| lower(c)))
    } else {
        None
    }
}

/// The header name that a text stands for.
///
/// Calls `http::HeaderName::from_bytes`, which takes the characters of a token in at most
/// 65535 bytes and turns them to lower case, and refuses everything else.
#[verifier::external_body]
pub(crate) fn parse_header_name(text: &str) -> (name: Option<String>)
    ensures
        name.deep_view() == header_name_of(text@),
{
    match http::HeaderName::from_bytes(text.as_bytes()) {
        Ok(name) => Some(name.as_str().to_string()),
        Err(_) => None,
    }
}

/// Takes a header out, with all of its values.
///
/// Calls `http::HeaderMap::remove` with a string, which stands for the name that
/// `http::HeaderName::from_bytes` makes of it; a string that is no name takes nothing out.
#[verifier::external_body]
pub(crate) fn remove_header(headers: &mut HeaderMap, text: &str)
    ensures
        header_entries(*final(headers)) == (match header_name_of(text@) {
            Some(name) => header_entries(*old(headers)).remove(name),
            None => header_entries(*old(headers)),
        }),
{
    let _ = headers.remove(text);
}

/// A header's name and the texts of its values, as far as they are printable.
pub struct HeaderItem {
    pub name: String,
    pub values: Vec<Option<String>>,
}

pub open spec fn item_names(items: Seq<HeaderItem>) -> Seq<Seq<char>> {
    items.map_values(|item: HeaderItem| item.name@)
}

/// The headers of a map.
///
/// Calls `http::HeaderMap::keys`, which gives each name once, in no particular order; of each
/// name `http::HeaderMap::get_all`, which gives its values in the order in which they were
/// added; and of each value `http::HeaderValue::to_str`, which gives its text where all of it
/// is printable ASCII or tabs.
#[verifier::external_body]
pub(crate) fn header_items(headers: &HeaderMap) -> (items: Vec<HeaderItem>)
    ensures
        item_names(items@).no_duplicates(),
        item_names(items@).to_set() == header_entries(*headers).dom(),
        forall|i: int|
            0 <= i < items@.len() ==> (#[trigger] items@[i]).values.deep_view() == visible_texts(
                header_entries(*headers)[items@[i].name@],
            ),
{
    let text_of = |value: &http::HeaderValue| value.to_str().ok().map(String::from);
    headers.keys().map(|key| HeaderItem {
        name: key.as_str().to_string(),
        values: headers.get_all(key).iter().map(text_of).collect(),
    }).collect()
}

/// The headers that hold between two neighbours on the way and are not passed on.
pub open spec fn hop_by_hop_names() -> Seq<Seq<char>> {
    seq![
        "connection"@,
        "keep-alive"@,
        "proxy-authenticate"@,
        "proxy-authorization"@,
        "proxy-connection"@,
        "te"@,
        "trailer"@,
        "trailers"@,
        "transfer-encoding"@,
        "upgrade"@,
    ]
}

/// The names in the parts of a `Connection` header.
pub open spec fn named_parts(parts: Seq<Seq<char>>) -> Seq<Seq<char>>
    decreases parts.len(),
{
    if parts.len() == 0 {
        Seq::empty()
    } else {
        match header_name_of(trimmed(parts.last())) {
            Some(name) => named_parts(parts.drop_last()).push(name),
            None => named_parts(parts.drop_last()),
        }
    }
}

/// The names that the values of `Connection` headers list.
pub open spec fn connection_names(values: Seq<Option<Seq<char>>>) -> Seq<Seq<char>>
    decreases values.len(),
{
    if values.len() == 0 {
        Seq::empty()
    } else {
        connection_names(values.drop_last()) + (match values.last() {
            Some(text) => named_parts(split_on(text, ',')),
            None => Seq::empty(),
        })
    }
}

/// The names that the `Connection` headers of a response list.
pub open spec fn listed_names(entries: Map<Seq<char>, Seq<Seq<u8>>>) -> Seq<Seq<char>> {
    if entries.contains_key("connection"@) {
        connection_names(visible_texts(entries["connection"@]))
    } else {
        Seq::empty()
    }
}

/// The headers that are passed on: all but those that hold between two neighbours, and those
/// that the `Connection` headers list.
pub open spec fn passed_headers(entries: Map<Seq<char>, Seq<Seq<u8>>>) -> Map<
    Seq<char>,
    Seq<Seq<u8>>,
> {
    entries.remove_keys(hop_by_hop_names().to_set() + listed_names(entries).to_set())
}

/// The headers that no longer hold once a body has been decoded.
pub open spec fn entity_names() -> Seq<Seq<char>> {
    seq!["content-encoding"@, "content-length"@, "transfer-encoding"@]
}

proof fn lemma_name(text: Seq<char>)
    requires
        0 < text.len() <= 65535,
        forall|i: int|
            0 <= i < text.len() ==> header_char(#[trigger] text[i]) && lower(text[i]) == text[i],
    ensures
        header_name_of(text) == Some(text),
{
    assert(text.map_values(|c: char| lower(c)) =~= text);
}

proof fn lemma_hop_by_hop_names()
    ensures
        forall|i: int|
            0 <= i < hop_by_hop_names().len() ==> header_name_of(#[trigger] hop_by_hop_names()[i])
                == Some(hop_by_hop_names()[i]),
{
    reveal_strlit("connection");
    lemma_name("connection"@);
    reveal_strlit("keep-alive");
    lemma_name("keep-alive"@);
    reveal_strlit("proxy-authenticate");
    lemma_name("proxy-authenticate"@);
    reveal_strlit("proxy-authorization");
    lemma_name("proxy-authorization"@);
    reveal_strlit("proxy-connection");
    lemma_name("proxy-connection"@);
    reveal_strlit("te");
    lemma_name("te"@);
    reveal_strlit("trailer");
    lemma_name("trailer"@);
    reveal_strlit("trailers");
    lemma_name("trailers"@);
    reveal_strlit("transfer-encoding");
    lemma_name("transfer-encoding"@);
    reveal_strlit("upgrade");
    lemma_name("upgrade"@);
}

proof fn lemma_entity_names()
    ensures
        forall|i: int|
            0 <= i < entity_names().len() ==> header_name_of(#[trigger] entity_names()[i]) == Some(
                entity_names()[i],
            ),
{
    reveal_strlit("content-encoding");
    lemma_name("content-encoding"@);
    reveal_strlit("content-length");
    lemma_name("content-length"@);
    reveal_strlit("transfer-encoding");
    lemma_name("transfer-encoding"@);
}

/// Takes headers out one after the other.
fn remove_all(headers: &mut HeaderMap, names: &Vec<String>)
    requires
        forall|i: int|
            0 <= i < names.deep_view().len() ==> header_name_of(#[trigger] names.deep_view()[i])
                == Some(names.deep_view()[i]),
    ensures
        header_entries(*final(headers)) == header_entries(*old(headers)).remove_keys(
            names.deep_view().to_set(),
        ),
{
    let ghost before = header_entries(*headers);
    let ghost all = names.deep_view();
    let mut i: usize = 0;
    assert(before.remove_keys(all.take(0).to_set()) =~= before);
    while i < names.len()
        invariant
            i <= names.len(),
            all == names.deep_view(),
            forall|k: int|
                0 <= k < all.len() ==> header_name_of(#[trigger] all[k]) == Some(all[k]),
            header_entries(*headers) == before.remove_keys(all.take(i as int).to_set()),
        decreases names.len() - i,
    {
        assert(all[i as int] == names@[i as int]@);
        remove_header(headers, names[i].as_str());
        proof {
            let head = all.take(i as int);
            let more = all.take(i + 1);
            assert forall|x: Seq<char>| more.to_set().contains(x) == (head.to_set().contains(x)
                || x == all[i as int]) by {
                if head.contains(x) {
                    let k = choose|k: int| 0 <= k < head.len() && head[k] == x;
                    assert(more[k] == x);
                }
                assert(more[i as int] == all[i as int]);
                if more.contains(x) && x != all[i as int] {
                    let k = choose|k: int| 0 <= k < more.len() && more[k] == x;
                    assert(head[k] == x);
                }
            }
            assert(before.remove_keys(head.to_set()).remove(all[i as int]) =~= before.remove_keys(
                more.to_set(),
            ));
        }
        i += 1;
    }
    assert(all.take(all.len() as int) =~= all);
}

proof fn lemma_name_of_name(text: Seq<char>)
    ensures
        header_name_of(text) matches Some(name) ==> header_name_of(name) == Some(name),
{
    if header_name_of(text) is Some {
        let name = header_name_of(text)->0;
        assert forall|i: int| 0 <= i < name.len() implies header_char(#[trigger] name[i]) && lower(
            name[i],
        ) == name[i] by {
            assert(name[i] == lower(text[i]));
            assert(header_char(text[i]));
        }
        lemma_name(name);
    }
}

/// The names in the parts of a `Connection` header.
fn read_named_parts(parts: &Vec<String>) -> (names: Vec<String>)
    ensures
        names.deep_view() == named_parts(parts.deep_view()),
        forall|i: int|
            0 <= i < names.deep_view().len() ==> header_name_of(#[trigger] names.deep_view()[i])
                == Some(names.deep_view()[i]),
{
    let ghost all = parts.deep_view();
    let mut names: Vec<String> = Vec::new();
    let mut i: usize = 0;
    while i < parts.len()
        invariant
            i <= parts.len(),
            all == parts.deep_view(),
            names.deep_view() == named_parts(all.take(i as int)),
            forall|k: int|
                0 <= k < names.deep_view().len() ==> header_name_of(
                    #[trigger] names.deep_view()[k],
                ) == Some(names.deep_view()[k]),
        decreases parts.len() - i,
    {
        assert(all.take(i + 1).drop_last() =~= all.take(i as int));
        assert(all.take(i + 1).last() == parts@[i as int]@);
        if let Some(name) = parse_header_name(trim(parts[i].as_str())) {
            proof {
                lemma_name_of_name(trimmed(parts@[i as int]@));
            }
            let ghost before = names.deep_view();
            names.push(name);
            assert(names.deep_view() =~= before.push(name@));
        }
        i += 1;
    }
    assert(all.take(all.len() as int) =~= all);
    names
}

/// The names that the values of `Connection` headers list.
fn read_connection_names(values: &Vec<Option<String>>) -> (names: Vec<String>)
    ensures
        names.deep_view() == connection_names(values.deep_view()),
        forall|i: int|
            0 <= i < names.deep_view().len() ==> header_name_of(#[trigger] names.deep_view()[i])
                == Some(names.deep_view()[i]),
{
    let ghost all = values.deep_view();
    let mut names: Vec<String> = Vec::new();
    let mut i: usize = 0;
    while i < values.len()
        invariant
            i <= values.len(),
            all == values.deep_view(),
            names.deep_view() == connection_names(all.take(i as int)),
            forall|k: int|
                0 <= k < names.deep_view().len() ==> header_name_of(
                    #[trigger] names.deep_view()[k],
                ) == Some(names.deep_view()[k]),
        decreases values.len() - i,
    {
        assert(all.take(i + 1).drop_last() =~= all.take(i as int));
        assert(all.take(i + 1).last() == values@[i as int].deep_view());
        let ghost before = names.deep_view();
        if let Some(text) = &values[i] {
            let parts = split(text.as_str(), ',');
            let mut more = read_named_parts(&parts);
            let ghost added = more.deep_view();
            names.append(&mut more);
            assert(names.deep_view() =~= before + added);
            assert forall|k: int| 0 <= k < names.deep_view().len() implies header_name_of(
                #[trigger] names.deep_view()[k],
            ) == Some(names.deep_view()[k]) by {
                if k < before.len() {
                    assert(names.deep_view()[k] == before[k]);
                } else {
                    assert(names.deep_view()[k] == added[k - before.len()]);
                }
            }
        } else {
            assert(before + Seq::<Seq<char>>::empty() =~= before);
        }
        i += 1;
    }
    assert(all.take(all.len() as int) =~= all);
    names
}

/// The names that the `Connection` headers of a response list.
fn read_listed_names(headers: &HeaderMap) -> (names: Vec<String>)
    ensures
        names.deep_view() == listed_names(header_entries(*headers)),
        forall|i: int|
            0 <= i < names.deep_view().len() ==> header_name_of(#[trigger] names.deep_view()[i])
                == Some(names.deep_view()[i]),
{
    let items = header_items(headers);
    let ghost entries = header_entries(*headers);
    let ghost all = item_names(items@);
    let mut i: usize = 0;
    while i < items.len()
        invariant
            i <= items.len(),
            all == item_names(items@),
            entries == header_entries(*headers),
            all.to_set() == entries.dom(),
            forall|k: int|
                0 <= k < items@.len() ==> (#[trigger] items@[k]).values.deep_view()
                    == visible_texts(entries[items@[k].name@]),
            forall|k: int| 0 <= k < i ==> all[k] != "connection"@,
        decreases items.len() - i,
    {
        assert(all[i as int] == items@[i as int].name@);
        if str_eq(items[i].name.as_str(), "connection") {
            assert(all.to_set().contains("connection"@));
            return read_connection_names(&items[i].values);
        }
        i += 1;
    }
    let none: Vec<String> = Vec::new();
    proof {
        assert(none.deep_view() =~= Seq::<Seq<char>>::empty());
        assert(!all.contains("connection"@));
        assert(!all.to_set().contains("connection"@));
    }
    none
}

/// The characters of several strings.
spec fn str_views(texts: Seq<&str>) -> Seq<Seq<char>> {
    Seq::new(texts.len(), |i: int| texts[i]@)
}

/// Copies of several strings.
fn names_of(texts: &[&str]) -> (names: Vec<String>)
    ensures
        names.deep_view() == str_views(texts@),
{
    let mut names: Vec<String> = Vec::new();
    let mut i: usize = 0;
    while i < texts.len()
        invariant
            i <= texts@.len(),
            names.deep_view() == str_views(texts@.take(i as int)),
        decreases texts@.len() - i,
    {
        let ghost before = names.deep_view();
        let name = texts[i].to_owned();
        names.push(name);
        assert(names.deep_view() =~= before.push(name@));
        assert(str_views(texts@.take(i + 1)) =~= str_views(texts@.take(i as int)).push(
            texts@[i as int]@,
        ));
        i += 1;
    }
    assert(texts@.take(texts@.len() as int) =~= texts@);
    names
}

/// Takes out the headers that hold between two neighbours on the way, and those that the
/// `Connection` headers list.
pub fn strip_hop_by_hop_response_headers(headers: &mut HeaderMap)
    ensures
        header_entries(*final(headers)) == passed_headers(header_entries(*old(headers))),
{
    let listed = read_listed_names(headers);
    let ghost before = header_entries(*headers);
    let fixed = names_of(
        &[
            "connection",
            "keep-alive",
            "proxy-authenticate",
            "proxy-authorization",
            "proxy-connection",
            "te",
            "trailer",
            "trailers",
            "transfer-encoding",
            "upgrade",
        ],
    );
    proof {
        assert(fixed.deep_view() =~= hop_by_hop_names());
        lemma_hop_by_hop_names();
    }
    remove_all(headers, &fixed);
    remove_all(headers, &listed);
    assert(header_entries(*headers) =~= passed_headers(before));
}

/// Takes out the headers that no longer hold once the body has been decoded.
pub fn strip_entity_headers_for_rebuilt_body(headers: &mut HeaderMap)
    ensures
        header_entries(*final(headers)) == header_entries(*old(headers)).remove_keys(
            entity_names().to_set(),
        ),
{
    let names = names_of(&["content-encoding", "content-length", "transfer-encoding"]);
    proof {
        assert(names.deep_view() =~= entity_names());
        lemma_entity_names();
    }
    remove_all(headers, &names);
}

/// Whether the value of a header may show in the log.
pub open spec fn safe_name(name: Seq<char>) -> bool {
    ||| name == "content-type"@
    ||| name == "content-encoding"@
    ||| name == "content-length"@
    ||| name == "retry-after"@
    ||| name == "cf-ray"@
    ||| name == "x-request-id"@
    ||| name == "request-id"@
    ||| name == "x-correlation-id"@
    ||| "x-ratelimit-"@.is_prefix_of(name)
    ||| "ratelimit-"@.is_prefix_of(name)
}

/// Whether the value of a header may show in the log.
pub fn is_safe_diagnostic_header(name: &str) -> (res: bool)
    ensures
        res == safe_name(name@),
{
    str_eq(name, "content-type") || str_eq(name, "content-encoding") || str_eq(
        name,
        "content-length",
    ) || str_eq(name, "retry-after") || str_eq(name, "cf-ray") || str_eq(name, "x-request-id")
        || str_eq(name, "request-id") || str_eq(name, "x-correlation-id") || starts_with(
        name,
        "x-ratelimit-",
    ) || starts_with(name, "ratelimit-")
}

/// How many characters of a header value show in the log.
pub const MAX_SHOWN_CHARS: usize = 160;

/// A value as it shows in the log: its beginning, with a mark where it is longer.
pub open spec fn bounded(value: Seq<char>) -> Seq<char> {
    if value.len() > MAX_SHOWN_CHARS {
        value.take(MAX_SHOWN_CHARS as int) + "…"@
    } else {
        value
    }
}

/// A value as it shows in the log.
pub fn bounded_header_value(value: &str) -> (shown: String)
    ensures
        shown@ == bounded(value@),
{
    let len = value.unicode_len();
    if len > MAX_SHOWN_CHARS {
        let start = value.substring_char(0, MAX_SHOWN_CHARS);
        assert(start@ =~= value@.take(MAX_SHOWN_CHARS as int));
        concat2(start, "…")
    } else {
        value.to_owned()
    }
}

/// The printable values of a header as they show in the log.
pub open spec fn shown_values(values: Seq<Option<Seq<char>>>) -> Seq<Seq<char>>
    decreases values.len(),
{
    if values.len() == 0 {
        Seq::empty()
    } else {
        match values.last() {
            Some(value) => shown_values(values.drop_last()).push(bounded(value)),
            None => shown_values(values.drop_last()),
        }
    }
}

/// A header as it shows in the log: its name, and its values only where they are safe to show.
pub open spec fn shown_header(name: Seq<char>, values: Seq<Option<Seq<char>>>) -> Seq<char> {
    if safe_name(name) && shown_values(values).len() > 0 {
        name + "="@ + join(shown_values(values), "|"@)
    } else {
        name
    }
}

/// Whether one text stands before another in the order of their characters, or is the same.
pub open spec fn text_le(a: Seq<char>, b: Seq<char>) -> bool
    decreases a.len(),
{
    a.len() == 0 || (b.len() > 0 && (a[0] < b[0] || (a[0] == b[0] && text_le(
        a.drop_first(),
        b.drop_first(),
    ))))
}

/// Whether texts stand in order.
pub open spec fn in_order(texts: Seq<Seq<char>>) -> bool {
    forall|i: int, j: int| 0 <= i < j < texts.len() ==> text_le(texts[i], texts[j])
}

proof fn lemma_text_le_total(a: Seq<char>, b: Seq<char>)
    ensures
        text_le(a, b) || text_le(b, a),
    decreases a.len(),
{
    if a.len() > 0 && b.len() > 0 && a[0] == b[0] {
        lemma_text_le_total(a.drop_first(), b.drop_first());
    }
}

proof fn lemma_text_le_transitive(a: Seq<char>, b: Seq<char>, c: Seq<char>)
    requires
        text_le(a, b),
        text_le(b, c),
    ensures
        text_le(a, c),
    decreases a.len(),
{
    if a.len() > 0 && a[0] == b[0] && b[0] == c[0] {
        lemma_text_le_transitive(a.drop_first(), b.drop_first(), c.drop_first());
    }
}

/// Whether one text stands before another, or is the same.
fn is_text_le(a: &str, b: &str) -> (res: bool)
    ensures
        res == text_le(a@, b@),
{
    let left = chars_of(a);
    let right = chars_of(b);
    let mut i: usize = 0;
    assert(a@.skip(0) =~= a@);
    assert(b@.skip(0) =~= b@);
    while i < left.len() && i < right.len() && left[i] == right[i]
        invariant
            left@ == a@,
            right@ == b@,
            i <= left.len(),
            i <= right.len(),
            text_le(a@, b@) == text_le(a@.skip(i as int), b@.skip(i as int)),
        decreases left.len() - i,
    {
        assert(a@.skip(i as int).drop_first() =~= a@.skip(i + 1));
        assert(b@.skip(i as int).drop_first() =~= b@.skip(i + 1));
        i += 1;
    }
    if i == left.len() {
        true
    } else if i == right.len() {
        false
    } else {
        left[i] < right[i]
    }
}

/// Puts a text into its place among texts that stand in order.
fn insert_in_order(texts: &mut Vec<String>, text: String)
    requires
        in_order(old(texts).deep_view()),
    ensures
        in_order(final(texts).deep_view()),
        final(texts).deep_view().to_multiset() == old(texts).deep_view().to_multiset().insert(text@),
{
    let ghost before = texts.deep_view();
    let ghost x = text@;
    let mut i: usize = 0;
    while i < texts.len() && is_text_le(texts[i].as_str(), text.as_str())
        invariant
            i <= texts.len(),
            before == texts.deep_view(),
            x == text@,
            forall|k: int| 0 <= k < i ==> text_le(#[trigger] before[k], x),
        decreases texts.len() - i,
    {
        assert(before[i as int] == texts@[i as int]@);
        i += 1;
    }
    proof {
        if i < texts.len() {
            assert(before[i as int] == texts@[i as int]@);
            lemma_text_le_total(before[i as int], x);
        }
    }
    texts.insert(i, text);
    let ghost after = texts.deep_view();
    proof {
        assert(after =~= before.insert(i as int, x));
        assert forall|a: int, b: int| 0 <= a < b < after.len() implies text_le(after[a], after[b]) by {
            if a < i && b > i {
                assert(after[a] == before[a]);
                assert(after[b] == before[b - 1]);
            } else if a == i {
                assert(after[b] == before[b - 1]);
                if b - 1 > i {
                    lemma_text_le_transitive(x, before[i as int], before[b - 1]);
                }
            } else if a > i {
                assert(after[a] == before[a - 1]);
                assert(after[b] == before[b - 1]);
            } else if b < i {
                assert(after[a] == before[a]);
                assert(after[b] == before[b]);
            }
        }
        lemma_insert_multiset(before, i as int, x);
    }
}

proof fn lemma_insert_multiset(s: Seq<Seq<char>>, i: int, x: Seq<char>)
    requires
        0 <= i <= s.len(),
    ensures
        s.insert(i, x).to_multiset() == s.to_multiset().insert(x),
{
    broadcast use vstd::seq_lib::group_to_multiset_ensures;

    let head = s.take(i);
    let tail = s.skip(i);
    assert(s.insert(i, x) =~= head.push(x) + tail);
    assert(s =~= head + tail);
    vstd::seq_lib::lemma_multiset_commutative(head.push(x), tail);
    vstd::seq_lib::lemma_multiset_commutative(head, tail);
    assert(s.insert(i, x).to_multiset() =~= s.to_multiset().insert(x));
}

/// The printable values of a header as they show in the log.
fn show_values(values: &Vec<Option<String>>) -> (shown: Vec<String>)
    ensures
        shown.deep_view() == shown_values(values.deep_view()),
{
    let ghost all = values.deep_view();
    let mut shown: Vec<String> = Vec::new();
    let mut i: usize = 0;
    while i < values.len()
        invariant
            i <= values.len(),
            all == values.deep_view(),
            shown.deep_view() == shown_values(all.take(i as int)),
        decreases values.len() - i,
    {
        assert(all.take(i + 1).drop_last() =~= all.take(i as int));
        assert(all.take(i + 1).last() == values@[i as int].deep_view());
        if let Some(value) = &values[i] {
            let ghost before = shown.deep_view();
            let text = bounded_header_value(value.as_str());
            shown.push(text);
            assert(shown.deep_view() =~= before.push(text@));
        }
        i += 1;
    }
    assert(all.take(all.len() as int) =~= all);
    shown
}

/// A header as it shows in the log.
fn show_header(name: &str, values: &Vec<Option<String>>) -> (shown: String)
    ensures
        shown@ == shown_header(name@, values.deep_view()),
{
    if !is_safe_diagnostic_header(name) {
        return name.to_owned();
    }
    let texts = show_values(values);
    if texts.len() == 0 {
        name.to_owned()
    } else {
        let joined = join_strings(&texts, "|");
        concat3(name, "=", joined.as_str())
    }
}

/// The headers with these names as they show in the log.
pub open spec fn shown_headers(entries: Map<Seq<char>, Seq<Seq<u8>>>, names: Seq<Seq<char>>) -> Seq<
    Seq<char>,
> {
    names.map_values(|name: Seq<char>| shown_header(name, visible_texts(entries[name])))
}

/// Whether `order` lists every header of a response once, as it shows in the log, in order.
pub open spec fn header_list(
    entries: Map<Seq<char>, Seq<Seq<u8>>>,
    order: Seq<Seq<char>>,
) -> bool {
    in_order(order) && exists|names: Seq<Seq<char>>| #[trigger]
        names.no_duplicates() && names.to_set() == entries.dom() && order.to_multiset()
            == shown_headers(entries, names).to_multiset()
}

/// The headers of a response for the log: all of their names in order, but only values that
/// are safe to show.
pub fn format_headers(headers: &HeaderMap) -> (text: String)
    ensures
        exists|order: Seq<Seq<char>>| #[trigger]
            header_list(header_entries(*headers), order) && text@ == "["@ + join(order, ", "@)
                + "]"@,
{
    let items = header_items(headers);
    let ghost entries = header_entries(*headers);
    let ghost names = item_names(items@);
    let mut shown: Vec<String> = Vec::new();
    let mut i: usize = 0;
    proof {
        assert(shown.deep_view() =~= Seq::<Seq<char>>::empty());
        assert(shown_headers(entries, names.take(0)) =~= Seq::<Seq<char>>::empty());
    }
    while i < items.len()
        invariant
            i <= items.len(),
            names == item_names(items@),
            forall|k: int|
                0 <= k < items@.len() ==> (#[trigger] items@[k]).values.deep_view()
                    == visible_texts(entries[items@[k].name@]),
            in_order(shown.deep_view()),
            shown.deep_view().to_multiset() == shown_headers(
                entries,
                names.take(i as int),
            ).to_multiset(),
        decreases items.len() - i,
    {
        let text = show_header(items[i].name.as_str(), &items[i].values);
        proof {
            broadcast use vstd::seq_lib::group_to_multiset_ensures;

            assert(names[i as int] == items@[i as int].name@);
            assert(shown_headers(entries, names.take(i + 1)) =~= shown_headers(
                entries,
                names.take(i as int),
            ).push(text@));
        }
        insert_in_order(&mut shown, text);
        i += 1;
    }
    let joined = join_strings(&shown, ", ");
    proof {
        assert(names.take(names.len() as int) =~= names);
        assert(names.no_duplicates() && names.to_set() == entries.dom());
        assert(header_list(entries, shown.deep_view()));
    }
    concat3("[", joined.as_str(), "]")
}

/// The value of a header shows in the log only where its name is known to be safe.
pub proof fn law_unsafe_values_do_not_show(name: Seq<char>, values: Seq<Option<Seq<char>>>)
    requires
        !safe_name(name),
    ensures
        shown_header(name, values) == name,
{
}

proof fn lemma_text_le_antisymmetric(a: Seq<char>, b: Seq<char>)
    requires
        text_le(a, b),
        text_le(b, a),
    ensures
        a == b,
    decreases a.len(),
{
    if a.len() > 0 {
        lemma_text_le_antisymmetric(a.drop_first(), b.drop_first());
        assert(a =~= seq![a[0]] + a.drop_first());
        assert(b =~= seq![b[0]] + b.drop_first());
    } else {
        assert(a =~= b);
    }
}

/// The same names show the same headers, whatever their order.
proof fn lemma_shown_alike(
    entries: Map<Seq<char>, Seq<Seq<u8>>>,
    a: Seq<Seq<char>>,
    b: Seq<Seq<char>>,
)
    requires
        a.no_duplicates(),
        b.no_duplicates(),
        a.to_set() == b.to_set(),
    ensures
        shown_headers(entries, a).to_multiset() == shown_headers(entries, b).to_multiset(),
    decreases a.len(),
{
    if a.len() == 0 {
        if b.len() > 0 {
            assert(b.to_set().contains(b[0]));
            assert(a.to_set().contains(b[0]));
        }
        assert(a =~= b);
    } else {
        let x = a.last();
        assert(a.to_set().contains(x));
        assert(b.contains(x));
        let j = b.index_of(x);
        let rest = a.drop_last();
        let other = b.remove(j);
        assert(rest.to_set() =~= other.to_set()) by {
            assert forall|y: Seq<char>| rest.to_set().contains(y) implies other.to_set().contains(
                y,
            ) by {
                let i = rest.index_of(y);
                assert(a[i] == y && i != a.len() - 1);
                assert(a.to_set().contains(y));
                assert(b.contains(y));
                let k = b.index_of(y);
                assert(k != j);
                if k < j {
                    assert(other[k] == y);
                } else {
                    assert(other[k - 1] == y);
                }
            }
            assert forall|y: Seq<char>| other.to_set().contains(y) implies rest.to_set().contains(
                y,
            ) by {
                let k = other.index_of(y);
                let at = if k < j {
                    k
                } else {
                    k + 1
                };
                assert(b[at] == y && at != j);
                assert(b.to_set().contains(y));
                assert(a.contains(y));
                let i = a.index_of(y);
                assert(i != a.len() - 1);
                assert(rest[i] == y);
            }
        }
        lemma_shown_alike(entries, rest, other);
        let shown = shown_header(x, visible_texts(entries[x]));
        assert(shown_headers(entries, a) =~= shown_headers(entries, rest).push(shown));
        assert(shown_headers(entries, b) =~= shown_headers(entries, other).insert(j, shown));
        vstd::seq_lib::to_multiset_build(shown_headers(entries, rest), shown);
        vstd::seq_lib::to_multiset_insert(shown_headers(entries, other), j, shown);
    }
}

/// How the headers of a response show in the log is settled by the headers alone: there is one
/// list of them in order.
pub proof fn law_headers_show_in_one_order(
    entries: Map<Seq<char>, Seq<Seq<u8>>>,
    a: Seq<Seq<char>>,
    b: Seq<Seq<char>>,
)
    requires
        header_list(entries, a),
        header_list(entries, b),
    ensures
        a == b,
{
    let first = choose|names: Seq<Seq<char>>| #[trigger]
        names.no_duplicates() && names.to_set() == entries.dom() && a.to_multiset()
            == shown_headers(entries, names).to_multiset();
    let second = choose|names: Seq<Seq<char>>| #[trigger]
        names.no_duplicates() && names.to_set() == entries.dom() && b.to_multiset()
            == shown_headers(entries, names).to_multiset();
    lemma_shown_alike(entries, first, second);
    let le = |x: Seq<char>, y: Seq<char>| text_le(x, y);
    assert forall|x: Seq<char>| #[trigger] le(x, x) by {
        lemma_text_le_total(x, x);
    }
    assert forall|x: Seq<char>, y: Seq<char>| #[trigger] le(x, y) && #[trigger] le(y, x) implies x
        == y by {
        lemma_text_le_antisymmetric(x, y);
    }
    assert forall|x: Seq<char>, y: Seq<char>, z: Seq<char>| #[trigger]
        le(x, y) && #[trigger] le(y, z) implies le(x, z) by {
        lemma_text_le_transitive(x, y, z);
    }
    assert forall|x: Seq<char>, y: Seq<char>| #[trigger] le(x, y) || #[trigger] le(y, x) by {
        lemma_text_le_total(x, y);
    }
    vstd::seq_lib::lemma_sorted_unique(a, b, le);
}

/// Headers that hold between two neighbours are never passed on, nor is one that a
/// `Connection` header lists, and every other header is passed on unchanged.
pub proof fn law_only_hop_by_hop_headers_are_dropped(
    entries: Map<Seq<char>, Seq<Seq<u8>>>,
    name: Seq<char>,
)
    ensures
        passed_headers(entries).contains_key(name) == (entries.contains_key(name)
            && !hop_by_hop_names().contains(name) && !listed_names(entries).contains(name)),
        passed_headers(entries).contains_key(name) ==> passed_headers(entries)[name]
            == entries[name],
{
}

/// Stripping the headers again changes nothing.
pub proof fn law_stripping_twice_is_stripping_once(entries: Map<Seq<char>, Seq<Seq<u8>>>)
    ensures
        passed_headers(passed_headers(entries)) == passed_headers(entries),
{
    let once = passed_headers(entries);
    assert(hop_by_hop_names()[0] == "connection"@);
    assert(hop_by_hop_names().contains("connection"@));
    assert(hop_by_hop_names().to_set().contains("connection"@));
    assert(!once.contains_key("connection"@));
    assert(passed_headers(once) =~= once);
}

} // verus!
