//! Text as a sequence of characters: the string operations that the rest of
//! the crate is written with, each with its meaning on `Seq<char>`.

use vstd::prelude::*;
use vstd::slice::slice_subrange;
use vstd::string::StringExecFns;
use vstd::utf8::{encode_scalar, encode_utf8};

verus! {

/// `String::push` puts the character behind the text.
pub assume_specification[ String::push ](s: &mut String, c: char)
    ensures
        final(s)@ == old(s)@.push(c),
;

/// Characters with the Unicode property White_Space, the ones that trimming removes.
pub open spec fn is_space(c: char) -> bool {
    ||| '\u{9}' <= c <= '\u{d}'
    ||| c == '\u{20}'
    ||| c == '\u{85}'
    ||| c == '\u{a0}'
    ||| c == '\u{1680}'
    ||| '\u{2000}' <= c <= '\u{200a}'
    ||| '\u{2028}' <= c <= '\u{2029}'
    ||| c == '\u{202f}'
    ||| c == '\u{205f}'
    ||| c == '\u{3000}'
}

/// The text without its leading white space.
pub open spec fn trim_start(s: Seq<char>) -> Seq<char>
    decreases s.len(),
{
    if s.len() > 0 && is_space(s.first()) {
        trim_start(s.drop_first())
    } else {
        s
    }
}

/// The text without its trailing white space.
pub open spec fn trim_end(s: Seq<char>) -> Seq<char>
    decreases s.len(),
{
    if s.len() > 0 && is_space(s.last()) {
        trim_end(s.drop_last())
    } else {
        s
    }
}

/// The text without leading and trailing white space.
pub open spec fn trim(s: Seq<char>) -> Seq<char> {
    trim_end(trim_start(s))
}

/// The text without the run of `c` at its front.
pub open spec fn strip_leading(s: Seq<char>, c: char) -> Seq<char>
    decreases s.len(),
{
    if s.len() > 0 && s.first() == c {
        strip_leading(s.drop_first(), c)
    } else {
        s
    }
}

/// The text without the run of `c` at its end.
pub open spec fn strip_trailing(s: Seq<char>, c: char) -> Seq<char>
    decreases s.len(),
{
    if s.len() > 0 && s.last() == c {
        strip_trailing(s.drop_last(), c)
    } else {
        s
    }
}

/// The text without the repetitions of `pat` at its front.
pub open spec fn strip_leading_text(s: Seq<char>, pat: Seq<char>) -> Seq<char>
    decreases s.len(),
{
    if pat.len() > 0 && starts_with(s, pat) {
        strip_leading_text(s.skip(pat.len() as int), pat)
    } else {
        s
    }
}

/// The text between two `q`s that enclose it.
pub open spec fn inside(s: Seq<char>, q: char) -> Option<Seq<char>> {
    if s.len() >= 2 && s.first() == q && s.last() == q {
        Some(s.subrange(1, s.len() - 1))
    } else {
        None
    }
}

/// Whether `pat` stands in `s` at position `i`.
pub open spec fn occurs_at(s: Seq<char>, pat: Seq<char>, i: int) -> bool {
    &&& 0 <= i
    &&& i + pat.len() <= s.len()
    &&& s.subrange(i, i + pat.len()) == pat
}

/// Whether `s` begins with `pat`.
pub open spec fn starts_with(s: Seq<char>, pat: Seq<char>) -> bool {
    occurs_at(s, pat, 0)
}

/// Whether `s` ends with `pat`.
pub open spec fn ends_with(s: Seq<char>, pat: Seq<char>) -> bool {
    occurs_at(s, pat, s.len() - pat.len())
}

/// Whether `pat` stands anywhere in `s`.
pub open spec fn contains_text(s: Seq<char>, pat: Seq<char>) -> bool {
    exists|i: int| occurs_at(s, pat, i)
}

/// The first position at or after `from` at which `pat` stands in `s`.
pub open spec fn find_from(s: Seq<char>, pat: Seq<char>, from: int) -> Option<int>
    decreases s.len() + 1 - from,
{
    if from + pat.len() > s.len() {
        None
    } else if occurs_at(s, pat, from) {
        Some(from)
    } else {
        find_from(s, pat, from + 1)
    }
}

/// The first position at which `pat` stands in `s`.
pub open spec fn find(s: Seq<char>, pat: Seq<char>) -> Option<int> {
    find_from(s, pat, 0)
}

/// The pieces of `s` between the occurrences of `sep`, taken from the left.
pub open spec fn split(s: Seq<char>, sep: Seq<char>) -> Seq<Seq<char>>
    decreases s.len(),
{
    match find(s, sep) {
        Some(i) => if sep.len() > 0 && 0 <= i && i + sep.len() <= s.len() {
            seq![s.take(i)] + split(s.skip(i + sep.len()), sep)
        } else {
            seq![s]
        },
        None => seq![s],
    }
}

/// The text before and the text after the first `c`.
pub open spec fn split_once(s: Seq<char>, c: char) -> Option<(Seq<char>, Seq<char>)> {
    match find(s, seq![c]) {
        Some(i) => Some((s.take(i), s.skip(i + 1))),
        None => None,
    }
}

/// A line without the carriage return that stood before its line feed.
pub open spec fn strip_cr(s: Seq<char>) -> Seq<char> {
    if s.len() > 0 && s.last() == '\r' {
        s.drop_last()
    } else {
        s
    }
}

/// The lines of `s`: each ends at a line feed, or at a carriage return and a
/// line feed, or, the last one, at the end of the text.
pub open spec fn lines(s: Seq<char>) -> Seq<Seq<char>>
    decreases s.len(),
{
    if s.len() == 0 {
        seq![]
    } else {
        match find(s, seq!['\n']) {
            Some(i) => if 0 <= i < s.len() {
                seq![strip_cr(s.take(i))] + lines(s.skip(i + 1))
            } else {
                seq![s]
            },
            None => seq![s],
        }
    }
}

/// `s` with `with` in place of every `c`.
pub open spec fn replace_char(s: Seq<char>, c: char, with: Seq<char>) -> Seq<char>
    decreases s.len(),
{
    if s.len() == 0 {
        seq![]
    } else {
        replace_char(s.drop_last(), c, with) + if s.last() == c {
            with
        } else {
            seq![s.last()]
        }
    }
}

/// The lower-case form of an ASCII letter; any other character as it is.
pub open spec fn ascii_lower(c: char) -> char {
    if 'A' <= c <= 'Z' {
        (c as u32 + 32) as char
    } else {
        c
    }
}

/// Equality of texts up to the case of ASCII letters.
pub open spec fn same_ignoring_ascii_case(a: Seq<char>, b: Seq<char>) -> bool {
    &&& a.len() == b.len()
    &&& forall|i: int| 0 <= i < a.len() ==> ascii_lower(#[trigger] a[i]) == ascii_lower(b[i])
}

/// The number of bytes that a character takes in UTF-8.
pub open spec fn char_bytes(c: char) -> nat {
    encode_scalar(c as u32).len()
}

/// The number of bytes that a text takes in UTF-8.
pub open spec fn byte_len(s: Seq<char>) -> nat {
    encode_utf8(s).len()
}

/// The texts of a list one behind the other.
pub open spec fn joined(s: Seq<Seq<char>>) -> Seq<char>
    decreases s.len(),
{
    if s.len() == 0 {
        seq![]
    } else {
        joined(s.drop_last()) + s.last()
    }
}

/// What a list of character slices spells.
pub open spec fn spelled(v: Seq<&[char]>) -> Seq<Seq<char>> {
    v.map_values(|x: &[char]| x@)
}

/// What a list of strings spells.
pub open spec fn texts(v: Seq<String>) -> Seq<Seq<char>> {
    v.map_values(|x: String| x@)
}

/// What an optional string spells.
pub open spec fn opt_text(o: Option<String>) -> Option<Seq<char>> {
    match o {
        Some(s) => Some(s@),
        None => None,
    }
}

/// What an optional string slice spells.
pub open spec fn opt_str(o: Option<&str>) -> Option<Seq<char>> {
    match o {
        Some(s) => Some(s@),
        None => None,
    }
}

/// The characters of `s`, in order.
pub fn chars_of(s: &str) -> (r: Vec<char>)
    ensures
        r@ == s@,
{
    let mut out: Vec<char> = Vec::new();
    for c in it: s.chars()
        invariant
            out@ == it.seq().take(it.index() as int),
    {
        out.push(c);
    }
    out
}

/// The text that `chars` spells.
pub fn string_of(chars: &[char]) -> (r: String)
    ensures
        r@ == chars@,
{
    let mut out = String::new();
    push_chars(&mut out, chars);
    out
}

/// Puts `chars` behind `out`.
pub fn push_chars(out: &mut String, chars: &[char])
    ensures
        final(out)@ == old(out)@ + chars@,
{
    let mut i: usize = 0;
    while i < chars.len()
        invariant
            i <= chars@.len(),
            out@ == old(out)@ + chars@.take(i as int),
        decreases chars@.len() - i,
    {
        out.push(chars[i]);
        i += 1;
    }
    assert(chars@.take(i as int) == chars@);
}

/// Puts `more` behind `out`.
pub fn push_text(out: &mut Vec<char>, more: &str)
    ensures
        final(out)@ == old(out)@ + more@,
{
    for c in it: more.chars()
        invariant
            out@ == old(out)@ + it.seq().take(it.index() as int),
    {
        out.push(c);
    }
}

/// Puts a copy of `more` behind `out`.
pub fn push_slice(out: &mut Vec<char>, more: &[char])
    ensures
        final(out)@ == old(out)@ + more@,
{
    let mut i: usize = 0;
    while i < more.len()
        invariant
            i <= more@.len(),
            out@ == old(out)@ + more@.take(i as int),
        decreases more@.len() - i,
    {
        out.push(more[i]);
        i += 1;
    }
    assert(more@.take(i as int) == more@);
}

/// The two texts one behind the other.
pub fn concat2(a: &str, b: &str) -> (r: String)
    ensures
        r@ == a@ + b@,
{
    let mut out = String::new();
    out.append(a);
    out.append(b);
    out
}

/// The three texts one behind the other.
pub fn concat3(a: &str, b: &str, c: &str) -> (r: String)
    ensures
        r@ == a@ + b@ + c@,
{
    let mut out = concat2(a, b);
    out.append(c);
    out
}

/// Whether nothing but white space stands in the text.
pub fn is_blank(s: &str) -> (r: bool)
    ensures
        r == (trim(s@).len() == 0),
{
    let chars = chars_of(s);
    trimmed(chars.as_slice()).len() == 0
}

/// A copy of a list of strings.
pub fn copy_texts(v: &Vec<String>) -> (r: Vec<String>)
    ensures
        texts(r@) == texts(v@),
{
    let mut out: Vec<String> = Vec::new();
    let mut i: usize = 0;
    assert(texts(out@) =~= texts(v@).take(0));
    while i < v.len()
        invariant
            i <= v@.len(),
            texts(out@) == texts(v@).take(i as int),
        decreases v@.len() - i,
    {
        let ghost before = out@;
        out.push(v[i].clone());
        i += 1;
        assert(texts(out@) =~= texts(before).push(out@.last()@));
        assert(texts(v@)[i - 1] == v@[i - 1]@);
        assert(texts(out@) =~= texts(v@).take(i as int));
    }
    assert(texts(out@) =~= texts(v@));
    out
}

/// Whether `c` is white space.
pub fn space(c: char) -> (r: bool)
    ensures
        r == is_space(c),
{
    ('\u{9}' <= c && c <= '\u{d}') || c == '\u{20}' || c == '\u{85}' || c == '\u{a0}' || c
        == '\u{1680}' || ('\u{2000}' <= c && c <= '\u{200a}') || ('\u{2028}' <= c && c
        <= '\u{2029}') || c == '\u{202f}' || c == '\u{205f}' || c == '\u{3000}'
}

/// `s` without its leading white space.
pub fn trimmed_start<'a>(s: &'a [char]) -> (r: &'a [char])
    ensures
        r@ == trim_start(s@),
{
    let mut i: usize = 0;
    assert(s@.skip(0) == s@);
    while i < s.len() && space(s[i])
        invariant
            i <= s@.len(),
            trim_start(s@.skip(i as int)) == trim_start(s@),
        decreases s@.len() - i,
    {
        assert(s@.skip(i as int).drop_first() == s@.skip(i + 1));
        i += 1;
    }
    assert(s@.subrange(i as int, s@.len() as int) == s@.skip(i as int));
    slice_subrange(s, i, s.len())
}

/// `s` without its trailing white space.
pub fn trimmed_end<'a>(s: &'a [char]) -> (r: &'a [char])
    ensures
        r@ == trim_end(s@),
{
    let mut n: usize = s.len();
    assert(s@.take(n as int) == s@);
    while n > 0 && space(s[n - 1])
        invariant
            n <= s@.len(),
            trim_end(s@.take(n as int)) == trim_end(s@),
        decreases n,
    {
        assert(s@.take(n as int).drop_last() == s@.take(n - 1));
        n -= 1;
    }
    assert(s@.subrange(0, n as int) == s@.take(n as int));
    slice_subrange(s, 0, n)
}

/// `s` without leading and trailing white space.
pub fn trimmed<'a>(s: &'a [char]) -> (r: &'a [char])
    ensures
        r@ == trim(s@),
{
    trimmed_end(trimmed_start(s))
}

/// `s` without the run of `c` at its front.
pub fn without_leading<'a>(s: &'a [char], c: char) -> (r: &'a [char])
    ensures
        r@ == strip_leading(s@, c),
{
    let mut i: usize = 0;
    assert(s@.skip(0) == s@);
    while i < s.len() && s[i] == c
        invariant
            i <= s@.len(),
            strip_leading(s@.skip(i as int), c) == strip_leading(s@, c),
        decreases s@.len() - i,
    {
        assert(s@.skip(i as int).drop_first() == s@.skip(i + 1));
        i += 1;
    }
    assert(s@.subrange(i as int, s@.len() as int) == s@.skip(i as int));
    slice_subrange(s, i, s.len())
}

/// `s` without the run of `c` at its end.
pub fn without_trailing<'a>(s: &'a [char], c: char) -> (r: &'a [char])
    ensures
        r@ == strip_trailing(s@, c),
{
    let mut n: usize = s.len();
    assert(s@.take(n as int) == s@);
    while n > 0 && s[n - 1] == c
        invariant
            n <= s@.len(),
            strip_trailing(s@.take(n as int), c) == strip_trailing(s@, c),
        decreases n,
    {
        assert(s@.take(n as int).drop_last() == s@.take(n - 1));
        n -= 1;
    }
    assert(s@.subrange(0, n as int) == s@.take(n as int));
    slice_subrange(s, 0, n)
}

/// `s` without the repetitions of `pat` at its front.
pub fn without_leading_text<'a>(s: &'a [char], pat: &str) -> (r: &'a [char])
    ensures
        r@ == strip_leading_text(s@, pat@),
{
    let target = chars_of(pat);
    let mut rest: &'a [char] = s;
    if target.len() == 0 {
        return rest;
    }
    while text_at(rest, target.as_slice(), 0)
        invariant
            target@ == pat@,
            pat@.len() > 0,
            strip_leading_text(rest@, pat@) == strip_leading_text(s@, pat@),
        decreases rest@.len(),
    {
        assert(rest@.subrange(pat@.len() as int, rest@.len() as int) == rest@.skip(
            pat@.len() as int,
        ));
        rest = slice_subrange(rest, target.len(), rest.len());
    }
    rest
}

/// The text between two `q`s that enclose it.
pub fn between<'a>(s: &'a [char], q: char) -> (r: Option<&'a [char]>)
    ensures
        match r {
            Some(t) => inside(s@, q) == Some(t@),
            None => inside(s@, q) is None,
        },
{
    if s.len() >= 2 && s[0] == q && s[s.len() - 1] == q {
        Some(slice_subrange(s, 1, s.len() - 1))
    } else {
        None
    }
}

/// Whether `pat` stands in `s` at position `at`.
pub fn text_at(s: &[char], pat: &[char], at: usize) -> (r: bool)
    ensures
        r == occurs_at(s@, pat@, at as int),
{
    if at > s.len() || pat.len() > s.len() - at {
        return false;
    }
    let n: usize = s.len();
    let mut k: usize = 0;
    while k < pat.len()
        invariant
            n == s@.len(),
            k <= pat@.len(),
            at + pat@.len() <= s@.len(),
            forall|j: int| 0 <= j < k ==> s@[at + j] == #[trigger] pat@[j],
        decreases pat@.len() - k,
    {
        if s[at + k] != pat[k] {
            assert(s@.subrange(at as int, at + pat@.len())[k as int] != pat@[k as int]);
            return false;
        }
        k += 1;
    }
    assert(s@.subrange(at as int, at + pat@.len()) =~= pat@);
    true
}

/// Whether `s` begins with `pat`.
pub fn begins_with(s: &[char], pat: &str) -> (r: bool)
    ensures
        r == starts_with(s@, pat@),
{
    let pat = chars_of(pat);
    text_at(s, pat.as_slice(), 0)
}

/// Whether `s` ends with `pat`.
pub fn finishes_with(s: &[char], pat: &str) -> (r: bool)
    ensures
        r == ends_with(s@, pat@),
{
    let pat = chars_of(pat);
    if pat.len() > s.len() {
        return false;
    }
    text_at(s, pat.as_slice(), s.len() - pat.len())
}

/// Whether `s` spells `pat`.
pub fn spells(s: &[char], pat: &str) -> (r: bool)
    ensures
        r == (s@ == pat@),
{
    let pat = chars_of(pat);
    same_chars(s, pat.as_slice())
}

/// Whether the two slices spell the same text.
pub fn same_chars(a: &[char], b: &[char]) -> (r: bool)
    ensures
        r == (a@ == b@),
{
    if a.len() != b.len() {
        return false;
    }
    let same = text_at(a, b, 0);
    assert(a@.subrange(0, a@.len() as int) =~= a@);
    same
}

/// Whether the two strings spell the same text.
pub fn same_text(a: &str, b: &str) -> (r: bool)
    ensures
        r == (a@ == b@),
{
    let a = chars_of(a);
    spells(a.as_slice(), b)
}

/// The first position at which `pat` stands in `s`.
pub fn position(s: &[char], pat: &str) -> (r: Option<usize>)
    ensures
        match r {
            Some(i) => find(s@, pat@) == Some(i as int) && occurs_at(s@, pat@, i as int),
            None => find(s@, pat@) is None,
        },
{
    let pat = chars_of(pat);
    position_of(s, pat.as_slice())
}

/// The first position at which the characters `pat` stand in `s`.
pub fn position_of(s: &[char], pat: &[char]) -> (r: Option<usize>)
    ensures
        match r {
            Some(i) => find(s@, pat@) == Some(i as int) && occurs_at(s@, pat@, i as int),
            None => find(s@, pat@) is None,
        },
{
    if pat.len() > s.len() {
        return None;
    }
    let last: usize = s.len() - pat.len();
    let mut i: usize = 0;
    while i < last
        invariant
            i <= last,
            last + pat@.len() == s@.len(),
            find_from(s@, pat@, i as int) == find(s@, pat@),
        decreases last - i,
    {
        if text_at(s, pat, i) {
            return Some(i);
        }
        i += 1;
    }
    reveal_with_fuel(find_from, 2);
    if text_at(s, pat, i) {
        Some(i)
    } else {
        None
    }
}

/// Whether `pat` stands anywhere in `s`.
pub fn has_text(s: &[char], pat: &str) -> (r: bool)
    ensures
        r == contains_text(s@, pat@),
{
    let found = position(s, pat);
    proof {
        lemma_find_is_contains(s@, pat@, 0);
    }
    found.is_some()
}

/// The text before and the text after the first `c`.
pub fn split_at_char<'a>(s: &'a [char], c: char) -> (r: Option<(&'a [char], &'a [char])>)
    ensures
        match r {
            Some(p) => split_once(s@, c) == Some((p.0@, p.1@)),
            None => split_once(s@, c) is None,
        },
{
    let pat: Vec<char> = vec![c];
    assert(pat@ =~= seq![c]);
    let n: usize = s.len();
    match position_of(s, pat.as_slice()) {
        Some(i) => {
            assert(s@.subrange(0, i as int) == s@.take(i as int));
            assert(s@.subrange(i + 1, s@.len() as int) == s@.skip(i + 1));
            Some((slice_subrange(s, 0, i), slice_subrange(s, i + 1, n)))
        },
        None => None,
    }
}

/// The pieces of `s` between the occurrences of `sep`.
pub fn pieces<'a>(s: &'a [char], sep: &str) -> (r: Vec<&'a [char]>)
    requires
        sep@.len() > 0,
    ensures
        spelled(r@) == split(s@, sep@),
{
    let sep_chars = chars_of(sep);
    let mut out: Vec<&'a [char]> = Vec::new();
    let mut rest: &'a [char] = s;
    loop
        invariant
            sep_chars@ == sep@,
            sep@.len() > 0,
            split(s@, sep@) == spelled(out@) + split(rest@, sep@),
        decreases rest@.len(),
    {
        let ghost before = out@;
        let n: usize = rest.len();
        match position_of(rest, sep_chars.as_slice()) {
            Some(i) => {
                assert(rest@.subrange(0, i as int) == rest@.take(i as int));
                assert(rest@.subrange(i + sep@.len(), rest@.len() as int) == rest@.skip(
                    i + sep@.len(),
                ));
                out.push(slice_subrange(rest, 0, i));
                rest = slice_subrange(rest, i + sep_chars.len(), n);
                assert(spelled(out@) =~= spelled(before).push(out@.last()@));
            },
            None => {
                out.push(rest);
                assert(spelled(out@) =~= spelled(before) + seq![rest@]);
                return out;
            },
        }
    }
}

/// The lines of `s`.
pub fn line_list<'a>(s: &'a [char]) -> (r: Vec<&'a [char]>)
    ensures
        spelled(r@) == lines(s@),
{
    let mut out: Vec<&'a [char]> = Vec::new();
    let mut rest: &'a [char] = s;
    let feed: Vec<char> = vec!['\n'];
    assert(feed@ =~= seq!['\n']);
    while rest.len() > 0
        invariant
            feed@ == seq!['\n'],
            lines(s@) == spelled(out@) + lines(rest@),
        decreases rest@.len(),
    {
        let ghost before = out@;
        match position_of(rest, feed.as_slice()) {
            Some(i) => {
                let mut end: usize = i;
                if end > 0 && rest[end - 1] == '\r' {
                    end -= 1;
                }
                assert(rest@.subrange(0, end as int) =~= strip_cr(rest@.take(i as int)));
                assert(rest@.subrange(i + 1, rest@.len() as int) == rest@.skip(i + 1));
                out.push(slice_subrange(rest, 0, end));
                rest = slice_subrange(rest, i + 1, rest.len());
                assert(spelled(out@) =~= spelled(before).push(out@.last()@));
            },
            None => {
                out.push(rest);
                assert(spelled(out@) =~= spelled(before) + seq![rest@]);
                return out;
            },
        }
    }
    assert(lines(rest@) =~= Seq::<Seq<char>>::empty());
    assert(spelled(out@) + lines(rest@) =~= spelled(out@));
    out
}

/// `s` with `with` in place of every `c`.
pub fn replaced(s: &[char], c: char, with: &str) -> (r: Vec<char>)
    ensures
        r@ == replace_char(s@, c, with@),
{
    let mut out: Vec<char> = Vec::new();
    let mut i: usize = 0;
    while i < s.len()
        invariant
            i <= s@.len(),
            out@ == replace_char(s@.take(i as int), c, with@),
        decreases s@.len() - i,
    {
        assert(s@.take(i + 1).drop_last() == s@.take(i as int));
        if s[i] == c {
            push_text(&mut out, with);
        } else {
            out.push(s[i]);
        }
        i += 1;
    }
    assert(s@.take(i as int) == s@);
    out
}

/// Whether the two texts are equal up to the case of ASCII letters.
pub fn alike(s: &[char], word: &str) -> (r: bool)
    ensures
        r == same_ignoring_ascii_case(s@, word@),
{
    let target = chars_of(word);
    if s.len() != target.len() {
        return false;
    }
    let mut i: usize = 0;
    while i < s.len()
        invariant
            i <= s@.len(),
            target@ == word@,
            s@.len() == target@.len(),
            forall|j: int|
                0 <= j < i ==> ascii_lower(#[trigger] s@[j]) == ascii_lower(target@[j]),
        decreases s@.len() - i,
    {
        if lowered(s[i]) != lowered(target[i]) {
            assert(ascii_lower(s@[i as int]) != ascii_lower(target@[i as int]));
            return false;
        }
        i += 1;
    }
    true
}

/// The lower-case form of an ASCII letter; any other character as it is.
pub fn lowered(c: char) -> (r: char)
    ensures
        r == ascii_lower(c),
{
    if 'A' <= c && c <= 'Z' {
        ((c as u8) + 32) as char
    } else {
        c
    }
}

/// The number of bytes that a character takes in UTF-8.
pub fn width(c: char) -> (r: usize)
    ensures
        r == char_bytes(c),
        1 <= r <= 4,
{
    let v: u32 = c as u32;
    if v <= 0x7F {
        1
    } else if v <= 0x7FF {
        2
    } else if v <= 0xFFFF {
        3
    } else {
        4
    }
}

/// The number of bytes that a text takes in UTF-8.
pub fn count_bytes(s: &[char]) -> (r: u128)
    ensures
        r == byte_len(s@),
        r <= 4 * s@.len(),
{
    let n: usize = s.len();
    let mut total: u128 = 0;
    let mut i: usize = 0;
    while i < n
        invariant
            i <= n,
            n == s@.len(),
            total == byte_len(s@.take(i as int)),
            total <= 4 * i,
        decreases n - i,
    {
        proof {
            assert(s@.take(i + 1) =~= s@.take(i as int).push(s@[i as int]));
            lemma_byte_len_push(s@.take(i as int), s@[i as int]);
        }
        total = total + width(s[i]) as u128;
        i += 1;
    }
    assert(s@.take(i as int) == s@);
    total
}

/// The bytes of two texts one behind the other.
pub proof fn lemma_byte_len_concat(a: Seq<char>, b: Seq<char>)
    ensures
        byte_len(a + b) == byte_len(a) + byte_len(b),
    decreases a.len(),
{
    if a.len() == 0 {
        assert(a + b =~= b);
    } else {
        assert((a + b).drop_first() =~= a.drop_first() + b);
        lemma_byte_len_concat(a.drop_first(), b);
    }
}

/// The bytes of a text with one more character.
pub proof fn lemma_byte_len_push(s: Seq<char>, c: char)
    ensures
        byte_len(s.push(c)) == byte_len(s) + char_bytes(c),
        1 <= char_bytes(c) <= 4,
{
    let one = seq![c];
    assert(s.push(c) =~= s + one);
    lemma_byte_len_concat(s, one);
    assert(one.drop_first() =~= Seq::<char>::empty());
    reveal_with_fuel(encode_utf8, 2);
    assert(encode_utf8(one) =~= encode_scalar(c as u32));
}

/// Joining one list of texts behind another.
pub proof fn lemma_joined_concat(a: Seq<Seq<char>>, b: Seq<Seq<char>>)
    ensures
        joined(a + b) == joined(a) + joined(b),
    decreases b.len(),
{
    if b.len() == 0 {
        assert(a + b =~= a);
        assert(joined(a) + joined(b) =~= joined(a));
    } else {
        assert((a + b).drop_last() =~= a + b.drop_last());
        lemma_joined_concat(a, b.drop_last());
        assert(joined(a + b) =~= joined(a) + joined(b));
    }
}

/// After a replacement a character comes from the text, and is then not the one
/// replaced, or from what was put in.
pub proof fn lemma_replaced_chars(s: Seq<char>, c: char, with: Seq<char>, x: char)
    ensures
        replace_char(s, c, with).contains(x) ==> (s.contains(x) && x != c) || with.contains(x),
    decreases s.len(),
{
    if s.len() > 0 {
        let front = s.drop_last();
        lemma_replaced_chars(front, c, with, x);
        let out = replace_char(s, c, with);
        let head = replace_char(front, c, with);
        if out.contains(x) {
            let i = choose|i: int| 0 <= i < out.len() && out[i] == x;
            if i < head.len() {
                assert(head[i] == x);
                if front.contains(x) {
                    let j = choose|j: int| 0 <= j < front.len() && front[j] == x;
                    assert(s[j] == x);
                }
            } else if s.last() == c {
                assert(with[i - head.len()] == x);
            } else {
                assert(s[s.len() - 1] == x);
            }
        }
    }
}

/// Replacing a character by another one changes single positions.
pub proof fn lemma_replace_one(s: Seq<char>, c: char, d: char)
    ensures
        replace_char(s, c, seq![d]).len() == s.len(),
        forall|i: int|
            0 <= i < s.len() ==> #[trigger] replace_char(s, c, seq![d])[i] == if s[i] == c {
                d
            } else {
                s[i]
            },
    decreases s.len(),
{
    if s.len() > 0 {
        lemma_replace_one(s.drop_last(), c, d);
    }
}

/// A text without a character is not changed by replacing that character.
pub proof fn lemma_replace_absent(s: Seq<char>, c: char, with: Seq<char>)
    requires
        !s.contains(c),
    ensures
        replace_char(s, c, with) == s,
    decreases s.len(),
{
    if s.len() > 0 {
        assert(!s.drop_last().contains(c)) by {
            if s.drop_last().contains(c) {
                let i = choose|i: int| 0 <= i < s.drop_last().len() && s.drop_last()[i] == c;
                assert(s[i] == c);
            }
        }
        lemma_replace_absent(s.drop_last(), c, with);
        assert(s[s.len() - 1] != c);
        assert(replace_char(s, c, with) =~= s);
    } else {
        assert(replace_char(s, c, with) =~= s);
    }
}

/// What trimming leaves begins and ends with other characters than white space.
pub proof fn lemma_trim_ends(s: Seq<char>)
    ensures
        trim(s).len() > 0 ==> !is_space(trim(s).first()) && !is_space(trim(s).last()),
{
    lemma_trim_start_first(s);
    lemma_trim_end_ends(trim_start(s));
}

proof fn lemma_trim_start_first(s: Seq<char>)
    ensures
        trim_start(s).len() > 0 ==> !is_space(trim_start(s).first()),
    decreases s.len(),
{
    if s.len() > 0 && is_space(s.first()) {
        lemma_trim_start_first(s.drop_first());
    }
}

proof fn lemma_trim_end_ends(s: Seq<char>)
    ensures
        trim_end(s).len() > 0 ==> trim_end(s).first() == s.first() && !is_space(
            trim_end(s).last(),
        ),
    decreases s.len(),
{
    if s.len() > 0 && is_space(s.last()) {
        lemma_trim_end_ends(s.drop_last());
    }
}

/// A text that begins and ends with other characters than white space is not
/// changed by trimming.
pub proof fn lemma_trim_clean(s: Seq<char>)
    requires
        s.len() > 0 ==> !is_space(s.first()) && !is_space(s.last()),
    ensures
        trim(s) == s,
{
}

/// What is left without a leading character is the end of the text.
pub proof fn lemma_strip_leading(s: Seq<char>, c: char)
    ensures
        strip_leading(s, c).len() <= s.len(),
        strip_leading(s, c) == s.skip(s.len() - strip_leading(s, c).len()),
        strip_leading(s, c).len() > 0 ==> strip_leading(s, c).first() != c && strip_leading(
            s,
            c,
        ).last() == s.last(),
    decreases s.len(),
{
    if s.len() > 0 && s.first() == c {
        lemma_strip_leading(s.drop_first(), c);
        assert(s.drop_first().skip(s.drop_first().len() - strip_leading(s, c).len()) =~= s.skip(
            s.len() - strip_leading(s, c).len(),
        ));
    } else {
        assert(s.skip(0) =~= s);
    }
}

/// What is left without a trailing character is the beginning of the text.
pub proof fn lemma_strip_trailing(s: Seq<char>, c: char)
    ensures
        strip_trailing(s, c).len() <= s.len(),
        strip_trailing(s, c) == s.take(strip_trailing(s, c).len() as int),
        strip_trailing(s, c).len() > 0 ==> strip_trailing(s, c).last() != c && strip_trailing(
            s,
            c,
        ).first() == s.first(),
        forall|i: int| strip_trailing(s, c).len() <= i < s.len() ==> s[i] == c,
    decreases s.len(),
{
    if s.len() > 0 && s.last() == c {
        lemma_strip_trailing(s.drop_last(), c);
        let k = strip_trailing(s, c).len() as int;
        assert(s.drop_last().take(k) =~= s.take(k));
        assert forall|i: int| k <= i < s.len() implies s[i] == c by {
            if i < s.len() - 1 {
                assert(s.drop_last()[i] == c);
            }
        }
    } else {
        assert(s.take(s.len() as int) =~= s);
    }
}

/// A text holds a pattern at or after `from` exactly where the search finds one.
pub proof fn lemma_find_is_contains(s: Seq<char>, pat: Seq<char>, from: int)
    requires
        0 <= from,
    ensures
        find_from(s, pat, from) is Some <==> exists|i: int| from <= i && occurs_at(s, pat, i),
        find_from(s, pat, from) matches Some(i) ==> from <= i && occurs_at(s, pat, i),
        find_from(s, pat, from) matches Some(i) ==> forall|j: int|
            from <= j < i ==> !occurs_at(s, pat, j),
    decreases s.len() + 1 - from,
{
    if from + pat.len() <= s.len() && !occurs_at(s, pat, from) {
        lemma_find_is_contains(s, pat, from + 1);
        if exists|i: int| from <= i && occurs_at(s, pat, i) {
            let i = choose|i: int| from <= i && occurs_at(s, pat, i);
            assert(from + 1 <= i && occurs_at(s, pat, i));
        }
    }
    if from == 0 {
        assert(contains_text(s, pat) ==> exists|i: int| 0 <= i && occurs_at(s, pat, i));
    }
}

/// White space is what Unicode calls so: tab to carriage return, space, next line,
/// no-break space, the ogham space, the spaces of general punctuation, the line and
/// the paragraph separator, the narrow no-break space, the mathematical space and
/// the ideographic space.
pub proof fn law_white_space(c: char)
    ensures
        ({
            let n = c as int;
            is_space(c) <==> (9 <= n <= 13 || n == 32 || n == 133 || n == 160 || n == 5760 || 8192
                <= n <= 8202 || n == 8232 || n == 8233 || n == 8239 || n == 8287 || n == 12288)
        }),
{
}

proof fn lemma_trim_start_part(s: Seq<char>)
    ensures
        ({
            let k = s.len() - trim_start(s).len();
            &&& 0 <= k <= s.len()
            &&& trim_start(s) == s.skip(k)
            &&& forall|i: int| 0 <= i < k ==> is_space(#[trigger] s[i])
        }),
    decreases s.len(),
{
    if s.len() > 0 && is_space(s.first()) {
        let rest = s.drop_first();
        lemma_trim_start_part(rest);
        let k = s.len() - trim_start(s).len();
        assert(rest.skip(k - 1) =~= s.skip(k));
        assert forall|i: int| 0 <= i < k implies is_space(#[trigger] s[i]) by {
            if i > 0 {
                assert(rest[i - 1] == s[i]);
            }
        }
    } else {
        assert(s.skip(0) =~= s);
    }
}

proof fn lemma_trim_end_part(s: Seq<char>)
    ensures
        trim_end(s).len() <= s.len(),
        trim_end(s) == s.take(trim_end(s).len() as int),
        forall|i: int| trim_end(s).len() <= i < s.len() ==> is_space(#[trigger] s[i]),
    decreases s.len(),
{
    if s.len() > 0 && is_space(s.last()) {
        let front = s.drop_last();
        lemma_trim_end_part(front);
        let n = trim_end(s).len() as int;
        assert(front.take(n) =~= s.take(n));
        assert forall|i: int| n <= i < s.len() implies is_space(#[trigger] s[i]) by {
            if i < front.len() {
                assert(front[i] == s[i]);
            }
        }
    } else {
        assert(s.take(s.len() as int) =~= s);
    }
}

/// Trimming takes away the white space around a text and nothing else: what is left
/// is a part of the text, all around it is white space, and it neither begins nor
/// ends with any.
pub proof fn law_trimming(s: Seq<char>)
    ensures
        exists|i: int, j: int|
            0 <= i <= j <= s.len() && trim(s) == #[trigger] s.subrange(i, j) && (forall|k: int|
                0 <= k < i || j <= k < s.len() ==> is_space(#[trigger] s[k])),
        trim(s).len() > 0 ==> !is_space(trim(s).first()) && !is_space(trim(s).last()),
{
    let t = trim_start(s);
    lemma_trim_start_part(s);
    lemma_trim_end_part(t);
    lemma_trim_ends(s);
    let i = s.len() - t.len();
    let j = i + trim(s).len();
    assert(trim(s) =~= s.subrange(i, j));
    assert forall|k: int| 0 <= k < i || j <= k < s.len() implies is_space(#[trigger] s[k]) by {
        if j <= k {
            assert(t[k - i] == s[k]);
        }
    }
}

/// What is found is the first place at which a text stands in another.
pub proof fn law_finding(s: Seq<char>, pat: Seq<char>)
    ensures
        match find(s, pat) {
            Some(i) => occurs_at(s, pat, i) && forall|j: int| 0 <= j < i ==> !occurs_at(s, pat, j),
            None => forall|j: int| !occurs_at(s, pat, j),
        },
{
    lemma_found_first(s, pat, 0);
}

proof fn lemma_found_first(s: Seq<char>, pat: Seq<char>, from: int)
    requires
        0 <= from,
    ensures
        match find_from(s, pat, from) {
            Some(i) => from <= i && occurs_at(s, pat, i) && forall|j: int|
                from <= j < i ==> !occurs_at(s, pat, j),
            None => forall|j: int| from <= j ==> !occurs_at(s, pat, j),
        },
    decreases s.len() + 1 - from,
{
    if from + pat.len() <= s.len() && !occurs_at(s, pat, from) {
        lemma_found_first(s, pat, from + 1);
    }
}

/// Texts with a separator between them.
pub open spec fn joined_by(s: Seq<Seq<char>>, sep: Seq<char>) -> Seq<char>
    decreases s.len(),
{
    if s.len() == 0 {
        seq![]
    } else if s.len() == 1 {
        s[0]
    } else {
        s[0] + sep + joined_by(s.drop_first(), sep)
    }
}

/// A text that is cut at a separator is its pieces with the separator between them,
/// and no piece holds the separator.
pub proof fn law_splitting(s: Seq<char>, sep: Seq<char>)
    requires
        sep.len() > 0,
    ensures
        split(s, sep).len() > 0,
        joined_by(split(s, sep), sep) == s,
        forall|k: int| 0 <= k < split(s, sep).len() ==> !contains_text(#[trigger] split(s, sep)[k], sep),
    decreases s.len(),
{
    law_finding(s, sep);
    match find(s, sep) {
        Some(i) => {
            let head = s.take(i);
            let tail = s.skip(i + sep.len());
            law_splitting(tail, sep);
            let all = split(s, sep);
            assert(all == seq![head] + split(tail, sep));
            assert(all.drop_first() =~= split(tail, sep));
            assert(s =~= head + s.subrange(i, i + sep.len()) + tail);
            assert forall|k: int| 0 <= k < all.len() implies !contains_text(#[trigger] all[k], sep) by {
                if k > 0 {
                    assert(all[k] == split(tail, sep)[k - 1]);
                } else if contains_text(head, sep) {
                    let j = choose|j: int| occurs_at(head, sep, j);
                    assert(s.subrange(j, j + sep.len()) =~= head.subrange(j, j + sep.len()));
                    assert(occurs_at(s, sep, j));
                }
            }
        },
        None => {},
    }
}

/// A text that is cut once at a character is cut at the first one.
pub proof fn law_splitting_once(s: Seq<char>, c: char)
    ensures
        match split_once(s, c) {
            Some(p) => s == p.0 + seq![c] + p.1 && !p.0.contains(c),
            None => !s.contains(c),
        },
{
    let one = seq![c];
    law_finding(s, one);
    match find(s, one) {
        Some(i) => {
            assert(s.subrange(i, i + 1)[0] == c);
            assert(s =~= s.take(i) + one + s.skip(i + 1));
            if s.take(i).contains(c) {
                let j = choose|j: int| 0 <= j < i && s.take(i)[j] == c;
                assert(s.subrange(j, j + 1) =~= one);
                assert(occurs_at(s, one, j));
            }
        },
        None => {
            if s.contains(c) {
                let j = choose|j: int| 0 <= j < s.len() && s[j] == c;
                assert(s.subrange(j, j + 1) =~= one);
                assert(occurs_at(s, one, j));
            }
        },
    }
}

/// The lines of a text end at its line feeds; a carriage return in front of one
/// belongs to the end. What is behind the last line feed is a line if it is not
/// empty.
pub proof fn law_lines(a: Seq<char>, b: Seq<char>)
    requires
        !a.contains('\n'),
    ensures
        lines(a + seq!['\n'] + b) == seq![
            if a.len() > 0 && a.last() == '\r' {
                a.drop_last()
            } else {
                a
            },
        ] + lines(b),
        a.len() > 0 ==> lines(a) == seq![a],
        lines(Seq::<char>::empty()) == Seq::<Seq<char>>::empty(),
{
    let nl = seq!['\n'];
    let s = a + nl + b;
    law_finding(s, nl);
    law_finding(a, nl);
    assert(s.subrange(a.len() as int, a.len() as int + 1) =~= nl);
    assert(occurs_at(s, nl, a.len() as int));
    let i = find(s, nl)->0;
    assert(s.subrange(i, i + 1)[0] == '\n');
    assert(s[i] == '\n');
    if i < a.len() {
        assert(a[i] == '\n');
    }
    assert(s.take(i) =~= a);
    assert(s.skip(i + 1) =~= b);
    if find(a, nl) is Some {
        let j = find(a, nl)->0;
        assert(a.subrange(j, j + 1)[0] == '\n');
        assert(a[j] == '\n');
    }
}

/// Replacing a character works character by character.
pub proof fn law_replacing(a: Seq<char>, b: Seq<char>, c: char, with: Seq<char>, x: char)
    ensures
        replace_char(a + b, c, with) == replace_char(a, c, with) + replace_char(b, c, with),
        replace_char(seq![x], c, with) == if x == c {
            with
        } else {
            seq![x]
        },
    decreases b.len(),
{
    let none = Seq::<char>::empty();
    assert(replace_char(none, c, with) =~= none);
    assert(seq![x].drop_last() =~= none);
    assert(seq![x].last() == x);
    assert(replace_char(seq![x], c, with) =~= if x == c {
        with
    } else {
        seq![x]
    });
    if b.len() == 0 {
        assert(a + b =~= a);
        assert(replace_char(a, c, with) + replace_char(b, c, with) =~= replace_char(a, c, with));
    } else {
        assert((a + b).drop_last() =~= a + b.drop_last());
        law_replacing(a, b.drop_last(), c, with, x);
        assert(replace_char(a + b, c, with) =~= replace_char(a, c, with) + replace_char(
            b,
            c,
            with,
        ));
    }
}

/// A letter of ASCII is made small, and no other character is changed.
pub proof fn law_ascii_lower(c: char)
    ensures
        ({
            let n = c as int;
            ascii_lower(c) as int == if 65 <= n <= 90 {
                n + 32
            } else {
                n
            }
        }),
{
}

/// What is left of a text without white space in front begins as the trimmed text
/// does.
pub proof fn lemma_trim_front(s: Seq<char>)
    ensures
        trim(s).len() > 0 ==> trim_start(s).len() > 0 && trim_start(s).first() == trim(s).first(),
{
    lemma_trim_end_ends(trim_start(s));
}

/// A text with a character between two others is cut there, where the first does
/// not hold the character.
pub proof fn law_cutting_at_a_character(a: Seq<char>, c: char, b: Seq<char>)
    requires
        !a.contains(c),
    ensures
        split_once(a + seq![c] + b, c) == Some((a, b)),
{
    let s = a + seq![c] + b;
    law_splitting_once(s, c);
    let n = a.len() as int;
    assert(s[n] == c);
    assert(s.contains(c));
    let p = split_once(s, c)->0;
    let k = p.0.len() as int;
    let again = p.0 + seq![c] + p.1;
    assert(again[k] == c);
    if k < n {
        assert(a[k] == s[k]);
        assert(a.contains(c));
    }
    if k > n {
        assert(p.0[n] == again[n]);
        assert(p.0.contains(c));
    }
    assert(s.take(n) =~= a);
    assert(again.take(k) =~= p.0);
    assert(s.skip(n + 1) =~= b);
    assert(again.skip(k + 1) =~= p.1);
}

} // verus!
