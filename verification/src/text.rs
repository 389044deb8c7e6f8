//! Character-level text functions: splitting, trimming, joining and decimal numerals.

use vstd::prelude::*;
use vstd::string::*;

verus! {

/// The position of the first `c` in `s`, or `s.len()` when there is none.
pub open spec fn find_char(s: Seq<char>, c: char) -> nat
    decreases s.len(),
{
    if s.len() == 0 || s[0] == c {
        0
    } else {
        1 + find_char(s.drop_first(), c)
    }
}

/// The parts of `s` between separators `sep`; one part more than there are separators.
pub open spec fn split_on(s: Seq<char>, sep: char) -> Seq<Seq<char>>
    decreases s.len(),
{
    let i = find_char(s, sep) as int;
    if 0 <= i < s.len() {
        seq![s.take(i)] + split_on(s.skip(i + 1), sep)
    } else {
        seq![s]
    }
}

/// A line without the carriage return that stood before its newline.
pub open spec fn strip_carriage_return(line: Seq<char>) -> Seq<char> {
    if line.len() > 0 && line.last() == '\r' {
        line.drop_last()
    } else {
        line
    }
}

/// The lines of `s`: each ends at a newline, which may follow a carriage return, or at the
/// end of `s`. Nothing after the last newline is no line.
pub open spec fn lines(s: Seq<char>) -> Seq<Seq<char>>
    decreases s.len(),
{
    let i = find_char(s, '\n') as int;
    if s.len() == 0 {
        Seq::empty()
    } else if 0 <= i < s.len() {
        seq![strip_carriage_return(s.take(i))] + lines(s.skip(i + 1))
    } else {
        seq![s]
    }
}

/// The parts one after another with `sep` between neighbours.
pub open spec fn join(parts: Seq<Seq<char>>, sep: Seq<char>) -> Seq<char>
    decreases parts.len(),
{
    if parts.len() == 0 {
        Seq::empty()
    } else if parts.len() == 1 {
        parts[0]
    } else {
        join(parts.drop_last(), sep) + sep + parts.last()
    }
}

/// The characters that have the Unicode property White_Space.
pub open spec fn white_space(c: char) -> bool {
    ||| '\u{9}' <= c <= '\u{d}'
    ||| c == '\u{20}'
    ||| c == '\u{85}'
    ||| c == '\u{a0}'
    ||| c == '\u{1680}'
    ||| '\u{2000}' <= c <= '\u{200a}'
    ||| c == '\u{2028}'
    ||| c == '\u{2029}'
    ||| c == '\u{202f}'
    ||| c == '\u{205f}'
    ||| c == '\u{3000}'
}

/// `s` without leading white space.
pub open spec fn trim_start(s: Seq<char>) -> Seq<char>
    decreases s.len(),
{
    if s.len() > 0 && white_space(s[0]) {
        trim_start(s.drop_first())
    } else {
        s
    }
}

/// `s` without trailing white space.
pub open spec fn trim_end(s: Seq<char>) -> Seq<char>
    decreases s.len(),
{
    if s.len() > 0 && white_space(s.last()) {
        trim_end(s.drop_last())
    } else {
        s
    }
}

/// `s` without white space at either end.
pub open spec fn trimmed(s: Seq<char>) -> Seq<char> {
    trim_end(trim_start(s))
}

/// `s` without trailing carriage returns and newlines.
pub open spec fn trim_newlines(s: Seq<char>) -> Seq<char>
    decreases s.len(),
{
    if s.len() > 0 && (s.last() == '\r' || s.last() == '\n') {
        trim_newlines(s.drop_last())
    } else {
        s
    }
}

/// The decimal digit of `d`.
pub open spec fn digit(d: nat) -> char {
    (('0' as nat + d % 10) as u32) as char
}

/// The decimal numeral of `n`, without leading zeros.
pub open spec fn decimal(n: nat) -> Seq<char>
    decreases n,
{
    if n < 10 {
        seq![digit(n)]
    } else {
        decimal(n / 10).push(digit(n % 10))
    }
}

pub proof fn lemma_find_char_bound(s: Seq<char>, c: char)
    ensures
        find_char(s, c) <= s.len(),
        forall|k: int| 0 <= k < find_char(s, c) ==> s[k] != c,
        find_char(s, c) < s.len() ==> s[find_char(s, c) as int] == c,
    decreases s.len(),
{
    if s.len() > 0 && s[0] != c {
        lemma_find_char_bound(s.drop_first(), c);
        assert forall|k: int| 0 <= k < find_char(s, c) implies s[k] != c by {
            if k > 0 {
                assert(s.drop_first()[k - 1] == s[k]);
            }
        }
    }
}

/// A position at which `c` stands, with no `c` before it, is the one that `find_char` gives.
pub proof fn lemma_find_char_is(s: Seq<char>, c: char, i: int)
    requires
        0 <= i <= s.len(),
        forall|k: int| 0 <= k < i ==> s[k] != c,
        i < s.len() ==> s[i] == c,
    ensures
        find_char(s, c) == i,
{
    lemma_find_char_bound(s, c);
}

/// The characters of a string.
pub fn chars_of(s: &str) -> (chars: Vec<char>)
    ensures
        chars@ == s@,
{
    let mut chars: Vec<char> = Vec::new();
    for c in it: s.chars()
        invariant
            it.seq() == s@,
            chars@ == s@.take(it.index()),
    {
        chars.push(c);
    }
    chars
}

/// Whether two strings hold the same characters.
pub fn str_eq(a: &str, b: &str) -> (equal: bool)
    ensures
        equal == (a@ == b@),
{
    if a.len() != b.len() {
        false
    } else {
        a.to_owned() == b.to_owned()
    }
}

/// Two strings one after the other.
pub fn concat2(a: &str, b: &str) -> (res: String)
    ensures
        res@ == a@ + b@,
{
    a.to_owned().concat(b)
}

/// Three strings one after another.
pub fn concat3(a: &str, b: &str, c: &str) -> (res: String)
    ensures
        res@ == a@ + b@ + c@,
{
    a.to_owned().concat(b).concat(c)
}

/// Whether `s` begins with `prefix`.
pub fn starts_with(s: &str, prefix: &str) -> (res: bool)
    ensures
        res == prefix@.is_prefix_of(s@),
{
    let chars = chars_of(s);
    let wanted = chars_of(prefix);
    if wanted.len() > chars.len() {
        return false;
    }
    let mut i: usize = 0;
    while i < wanted.len()
        invariant
            chars@ == s@,
            wanted@ == prefix@,
            i <= wanted.len() <= chars.len(),
            forall|k: int| 0 <= k < i ==> prefix@[k] == s@[k],
        decreases wanted.len() - i,
    {
        if chars[i] != wanted[i] {
            assert(s@.subrange(0, wanted.len() as int)[i as int] == s@[i as int]);
            return false;
        }
        i += 1;
    }
    assert(s@.subrange(0, wanted.len() as int) =~= prefix@);
    true
}

/// Splits a string at every `sep`.
pub fn split(s: &str, sep: char) -> (parts: Vec<String>)
    ensures
        parts.deep_view() == split_on(s@, sep),
{
    let chars = chars_of(s);
    let mut parts: Vec<String> = Vec::new();
    let mut start: usize = 0;
    let mut i: usize = 0;
    assert(s@.skip(0) =~= s@);
    assert(parts.deep_view() + split_on(s@, sep) =~= split_on(s@, sep));
    while i < chars.len()
        invariant
            chars@ == s@,
            start <= i <= chars.len(),
            parts.deep_view() + split_on(s@.skip(start as int), sep) == split_on(s@, sep),
            forall|k: int| start <= k < i ==> s@[k] != sep,
        decreases chars.len() - i,
    {
        if chars[i] == sep {
            let part = s.substring_char(start, i).to_owned();
            proof {
                let rest = s@.skip(start as int);
                let at = (i - start) as int;
                assert forall|k: int| 0 <= k < at implies rest[k] != sep by {
                    assert(rest[k] == s@[start + k]);
                }
                lemma_find_char_is(rest, sep, at);
                assert(rest.take(at) =~= s@.subrange(start as int, i as int));
                assert(rest.skip(at + 1) =~= s@.skip(i + 1));
                let before = parts.deep_view();
                assert(before.push(part@) + split_on(s@.skip(i + 1), sep) =~= before + (seq![part@]
                    + split_on(s@.skip(i + 1), sep)));
            }
            let ghost before = parts.deep_view();
            parts.push(part);
            assert(parts.deep_view() =~= before.push(part@));
            start = i + 1;
        }
        i += 1;
    }
    let part = s.substring_char(start, chars.len()).to_owned();
    proof {
        let rest = s@.skip(start as int);
        assert forall|k: int| 0 <= k < rest.len() implies rest[k] != sep by {
            assert(rest[k] == s@[start + k]);
        }
        lemma_find_char_is(rest, sep, rest.len() as int);
        assert(rest =~= part@);
    }
    let ghost before = parts.deep_view();
    parts.push(part);
    assert(parts.deep_view() =~= before + seq![part@]);
    parts
}

/// The lines of a string.
pub fn split_lines(s: &str) -> (out: Vec<String>)
    ensures
        out.deep_view() == lines(s@),
{
    let chars = chars_of(s);
    let mut out: Vec<String> = Vec::new();
    let mut start: usize = 0;
    let mut i: usize = 0;
    assert(s@.skip(0) =~= s@);
    assert(out.deep_view() + lines(s@) =~= lines(s@));
    while i < chars.len()
        invariant
            chars@ == s@,
            start <= i <= chars.len(),
            out.deep_view() + lines(s@.skip(start as int)) == lines(s@),
            forall|k: int| start <= k < i ==> s@[k] != '\n',
        decreases chars.len() - i,
    {
        if chars[i] == '\n' {
            let end: usize = if i > start && chars[i - 1] == '\r' {
                i - 1
            } else {
                i
            };
            let line = s.substring_char(start, end).to_owned();
            proof {
                let rest = s@.skip(start as int);
                let at = (i - start) as int;
                assert forall|k: int| 0 <= k < at implies rest[k] != '\n' by {
                    assert(rest[k] == s@[start + k]);
                }
                lemma_find_char_is(rest, '\n', at);
                if at > 0 {
                    assert(rest.take(at).last() == s@[i - 1]);
                }
                assert(strip_carriage_return(rest.take(at)) =~= line@);
                assert(rest.skip(at + 1) =~= s@.skip(i + 1));
                let before = out.deep_view();
                assert(before.push(line@) + lines(s@.skip(i + 1)) =~= before + (seq![line@]
                    + lines(s@.skip(i + 1))));
            }
            let ghost before = out.deep_view();
            out.push(line);
            assert(out.deep_view() =~= before.push(line@));
            start = i + 1;
        }
        i += 1;
    }
    if start < chars.len() {
        let line = s.substring_char(start, chars.len()).to_owned();
        proof {
            let rest = s@.skip(start as int);
            assert forall|k: int| 0 <= k < rest.len() implies rest[k] != '\n' by {
                assert(rest[k] == s@[start + k]);
            }
            lemma_find_char_is(rest, '\n', rest.len() as int);
            assert(rest =~= line@);
        }
        let ghost before = out.deep_view();
        out.push(line);
        assert(out.deep_view() =~= before + seq![line@]);
    } else {
        assert(s@.skip(start as int) =~= Seq::<char>::empty());
        assert(out.deep_view() + Seq::<Seq<char>>::empty() =~= out.deep_view());
    }
    out
}

/// Joins strings with a separator between neighbours.
pub fn join_strings(parts: &Vec<String>, sep: &str) -> (res: String)
    ensures
        res@ == join(parts.deep_view(), sep@),
{
    let mut res = String::new();
    let mut i: usize = 0;
    let ghost all = parts.deep_view();
    while i < parts.len()
        invariant
            i <= parts.len(),
            all == parts.deep_view(),
            res@ == join(all.take(i as int), sep@),
        decreases parts.len() - i,
    {
        proof {
            assert(all.take(i + 1).drop_last() =~= all.take(i as int));
            assert(all.take(i + 1).last() == parts@[i as int]@);
        }
        if i == 0 {
            assert(all.take(1)[0] == parts@[0]@);
            res = parts[0].clone();
        } else {
            res.append(sep);
            res.append(parts[i].as_str());
        }
        i += 1;
    }
    assert(all.take(all.len() as int) =~= all);
    res
}

/// Whether a character has the Unicode property White_Space.
pub fn is_white_space(c: char) -> (res: bool)
    ensures
        res == white_space(c),
{
    ('\u{9}' <= c && c <= '\u{d}') || c == '\u{20}' || c == '\u{85}' || c == '\u{a0}' || c
        == '\u{1680}' || ('\u{2000}' <= c && c <= '\u{200a}') || c == '\u{2028}' || c == '\u{2029}'
        || c == '\u{202f}' || c == '\u{205f}' || c == '\u{3000}'
}

/// A string without white space at either end.
pub fn trim(s: &str) -> (res: &str)
    ensures
        res@ == trimmed(s@),
{
    let chars = chars_of(s);
    let mut start: usize = 0;
    assert(s@.skip(0) =~= s@);
    while start < chars.len() && is_white_space(chars[start])
        invariant
            chars@ == s@,
            start <= chars.len(),
            trim_start(s@.skip(start as int)) == trim_start(s@),
        decreases chars.len() - start,
    {
        assert(s@.skip(start as int).drop_first() =~= s@.skip(start + 1));
        start += 1;
    }
    let mut end: usize = chars.len();
    assert(s@.subrange(start as int, end as int) =~= s@.skip(start as int));
    while end > start && is_white_space(chars[end - 1])
        invariant
            chars@ == s@,
            start <= end <= chars.len(),
            trim_start(s@) == s@.skip(start as int),
            trim_end(s@.subrange(start as int, end as int)) == trim_end(s@.skip(start as int)),
        decreases end,
    {
        assert(s@.subrange(start as int, end as int).drop_last() =~= s@.subrange(
            start as int,
            end - 1,
        ));
        end -= 1;
    }
    s.substring_char(start, end)
}

/// A string without trailing carriage returns and newlines.
pub fn trim_trailing_newlines(s: &str) -> (res: &str)
    ensures
        res@ == trim_newlines(s@),
{
    let chars = chars_of(s);
    let mut end: usize = chars.len();
    assert(s@.subrange(0, end as int) =~= s@);
    while end > 0 && (chars[end - 1] == '\r' || chars[end - 1] == '\n')
        invariant
            chars@ == s@,
            end <= chars.len(),
            trim_newlines(s@.subrange(0, end as int)) == trim_newlines(s@),
        decreases end,
    {
        assert(s@.subrange(0, end as int).drop_last() =~= s@.subrange(0, end - 1));
        end -= 1;
    }
    s.substring_char(0, end)
}

/// The decimal digit of `d` as a string.
fn digit_str(d: u64) -> (res: &'static str)
    requires
        d < 10,
    ensures
        res@ == seq![digit(d as nat)],
{
    proof {
        reveal_strlit("0");
        reveal_strlit("1");
        reveal_strlit("2");
        reveal_strlit("3");
        reveal_strlit("4");
        reveal_strlit("5");
        reveal_strlit("6");
        reveal_strlit("7");
        reveal_strlit("8");
        reveal_strlit("9");
    }
    if d == 0 {
        "0"
    } else if d == 1 {
        "1"
    } else if d == 2 {
        "2"
    } else if d == 3 {
        "3"
    } else if d == 4 {
        "4"
    } else if d == 5 {
        "5"
    } else if d == 6 {
        "6"
    } else if d == 7 {
        "7"
    } else if d == 8 {
        "8"
    } else {
        "9"
    }
}

/// The decimal numeral of a number.
pub fn decimal_string(n: u64) -> (res: String)
    ensures
        res@ == decimal(n as nat),
    decreases n,
{
    if n < 10 {
        digit_str(n).to_owned()
    } else {
        let res = decimal_string(n / 10).concat(digit_str(n % 10));
        assert(res@ =~= decimal(n as nat / 10).push(digit(n as nat % 10)));
        res
    }
}

} // verus!
