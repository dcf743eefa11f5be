//! The headers of a request.

use vstd::prelude::*;
use vstd::utf8::encode_utf8;

use crate::text::ascii_lower;

verus! {

/// The value of an HTTP header.
#[verifier::external_type_specification]
#[verifier::external_body]
pub struct ExHeaderValue(reqwest::header::HeaderValue);

/// A map of HTTP headers.
#[verifier::external_type_specification]
#[verifier::external_body]
#[verifier::reject_recursive_types(T)]
pub struct ExHeaderMap<T>(reqwest::header::HeaderMap<T>);

/// What a map of headers holds: for each name, in lower case, the bytes of its
/// value.
pub uninterp spec fn header_entries(m: reqwest::header::HeaderMap) -> Map<Seq<char>, Seq<u8>>;

/// What a map without headers holds.
pub open spec fn no_entries() -> Map<Seq<char>, Seq<u8>> {
    Map::empty()
}

/// As many headers as a map takes in, however their names fall in its table.
pub const MOST_HEADERS: usize = 6553;

/// Whether a map holds more headers than its table can always take.
pub open spec fn has_many(m: Map<Seq<char>, Seq<u8>>) -> bool {
    m.dom().len() > MOST_HEADERS
}

/// Whether a character can stand in the name of a header.
pub open spec fn is_name_char(c: char) -> bool {
    ||| '0' <= c <= '9'
    ||| 'A' <= c <= 'Z'
    ||| '^' <= c <= 'z'
    ||| '#' <= c <= '\''
    ||| c == '!'
    ||| c == '*'
    ||| c == '+'
    ||| c == '-'
    ||| c == '.'
    ||| c == '|'
    ||| c == '~'
}

/// Whether a text is the name of a header.
pub open spec fn is_header_name(s: Seq<char>) -> bool {
    &&& 1 <= s.len() <= 65535
    &&& forall|i: int| 0 <= i < s.len() ==> is_name_char(#[trigger] s[i])
}

/// Whether a text can be the value of a header: it holds no control characters
/// but tabs.
pub open spec fn is_header_value(s: Seq<char>) -> bool {
    forall|i: int|
        0 <= i < s.len() ==> ('\u{20}' <= #[trigger] s[i] && s[i] != '\u{7f}') || s[i] == '\t'
}

/// A name in lower case.
pub open spec fn lower_name(s: Seq<char>) -> Seq<char> {
    s.map_values(|c: char| ascii_lower(c))
}

/// Why a header was not taken in.
#[derive(Debug, PartialEq)]
pub enum HeaderFault {
    /// Its name is none.
    Name,
    /// Its value is none, for this reason.
    Value(String),
    /// The map has no room for another header.
    Full,
}

/// `reqwest::header::HeaderMap::new`: a map without headers.
#[verifier::external_body]
pub(crate) fn new_headers() -> (r: reqwest::header::HeaderMap)
    ensures
        header_entries(r) == no_entries(),
{
    reqwest::header::HeaderMap::new()
}

/// The `clone` of a `reqwest::header::HeaderMap`: the same headers.
#[verifier::external_body]
pub(crate) fn copy_headers(m: &reqwest::header::HeaderMap) -> (r: reqwest::header::HeaderMap)
    ensures
        header_entries(r) == header_entries(*m),
{
    m.clone()
}

/// `reqwest::header::HeaderMap::try_insert`, with the name that
/// `HeaderName::from_bytes` and the value that `HeaderValue::from_str` make of
/// two texts: the header takes the place of the one of its name, if both texts
/// are accepted. A map may refuse one more header only if it holds more than its
/// table can always take; from there on it rests on how the names fall in the
/// table whether it does, and that is left open.
#[verifier::external_body]
pub(crate) fn insert_header(map: &mut reqwest::header::HeaderMap, name: &str, value: &str) -> (r:
    Result<(), HeaderFault>)
    ensures
        header_entries(*final(map)) == if r is Ok {
            header_entries(*old(map)).insert(lower_name(name@), encode_utf8(value@))
        } else {
            header_entries(*old(map))
        },
        match r {
            Ok(_) => is_header_name(name@) && is_header_value(value@),
            Err(HeaderFault::Name) => !is_header_name(name@),
            Err(HeaderFault::Value(e)) => is_header_name(name@) && !is_header_value(value@) && e@
                == "failed to parse header value"@,
            Err(HeaderFault::Full) => is_header_name(name@) && is_header_value(value@)
                && has_many(header_entries(*old(map))),
        },
{
    let name = reqwest::header::HeaderName::from_bytes(name.as_bytes()).map_err(
        |_| HeaderFault::Name,
    )?;
    let value = reqwest::header::HeaderValue::from_str(value).map_err(
        |e| HeaderFault::Value(e.to_string()),
    )?;
    map.try_insert(name, value).map_err(|_| HeaderFault::Full)?;
    Ok(())
}

/// The headers that a list of names and values gives: those of which both are
/// accepted, the last of each name.
pub open spec fn accepted(pairs: Seq<(Seq<char>, Seq<char>)>) -> Map<Seq<char>, Seq<u8>>
    decreases pairs.len(),
{
    if pairs.len() == 0 {
        Map::empty()
    } else {
        let (name, value) = pairs.last();
        let m = accepted(pairs.drop_last());
        if is_header_name(name) && is_header_value(value) {
            m.insert(lower_name(name), encode_utf8(value))
        } else {
            m
        }
    }
}

/// What a list of names and values is.
pub open spec fn header_pairs(s: Seq<(String, String)>) -> Seq<(Seq<char>, Seq<char>)> {
    s.map_values(|x: (String, String)| (x.0@, x.1@))
}

proof fn lemma_accepted_size(pairs: Seq<(Seq<char>, Seq<char>)>)
    ensures
        accepted(pairs).dom().finite(),
        accepted(pairs).dom().len() <= pairs.len(),
    decreases pairs.len(),
{
    if pairs.len() > 0 {
        lemma_accepted_size(pairs.drop_last());
    }
}

/// More names and values give more headers.
proof fn lemma_accepted_grows(pairs: Seq<(Seq<char>, Seq<char>)>, n: int)
    requires
        0 <= n <= pairs.len(),
    ensures
        accepted(pairs.take(n)).dom().finite(),
        accepted(pairs.take(n)).dom().len() <= accepted(pairs).dom().len(),
        accepted(pairs.take(n)).dom().subset_of(accepted(pairs).dom()),
    decreases pairs.len(),
{
    lemma_accepted_size(pairs);
    if n == pairs.len() {
        assert(pairs.take(n) =~= pairs);
    } else {
        let front = pairs.drop_last();
        lemma_accepted_grows(front, n);
        assert(front.take(n) =~= pairs.take(n));
        assert(accepted(front).dom().subset_of(accepted(pairs).dom()));
    }
    vstd::set_lib::lemma_len_subset(accepted(pairs.take(n)).dom(), accepted(pairs).dom());
}

/// The headers that a list of names and values gives, without those of which
/// the name or the value is not accepted. There are none where the map has no room
/// for them, which can be only if they are too many.
pub fn gather_within(pairs: &Vec<(String, String)>) -> (r: Option<reqwest::header::HeaderMap>)
    ensures
        match r {
            Some(m) => header_entries(m) == accepted(header_pairs(pairs@)) && header_entries(
                m,
            ).dom().finite(),
            None => has_many(accepted(header_pairs(pairs@))),
        },
{
    let ghost all = header_pairs(pairs@);
    let mut out = new_headers();
    let mut i: usize = 0;
    while i < pairs.len()
        invariant
            i <= pairs@.len(),
            all == header_pairs(pairs@),
            header_entries(out) == accepted(all.take(i as int)),
        decreases pairs@.len() - i,
    {
        proof {
            lemma_accepted_grows(all, i as int);
            assert(all.take(i + 1).drop_last() == all.take(i as int));
            assert(all.take(i + 1).last() == (pairs@[i as int].0@, pairs@[i as int].1@));
        }
        if let Err(HeaderFault::Full) = insert_header(
            &mut out,
            pairs[i].0.as_str(),
            pairs[i].1.as_str(),
        ) {
            return None;
        }
        i += 1;
    }
    proof {
        assert(all.take(all.len() as int) == all);
        lemma_accepted_size(all);
    }
    Some(out)
}

/// The headers that a list of names and values gives, without those of which
/// the name or the value is not accepted.
pub fn gather_headers(pairs: &Vec<(String, String)>) -> (r: reqwest::header::HeaderMap)
    requires
        accepted(header_pairs(pairs@)).dom().len() <= MOST_HEADERS,
    ensures
        header_entries(r) == accepted(header_pairs(pairs@)),
        header_entries(r).dom().finite(),
{
    match gather_within(pairs) {
        Some(m) => m,
        // So few always have room.
        None => new_headers(),
    }
}

/// Every header that is taken in has a name in lower case and a value without
/// line breaks.
pub proof fn law_headers_are_well_formed(pairs: Seq<(Seq<char>, Seq<char>)>, k: Seq<char>)
    requires
        accepted(pairs).dom().contains(k),
    ensures
        exists|i: int|
            0 <= i < pairs.len() && #[trigger] is_header_name(pairs[i].0) && is_header_value(
                pairs[i].1,
            ) && k == lower_name(pairs[i].0) && accepted(pairs)[k] == encode_utf8(pairs[i].1),
    decreases pairs.len(),
{
    let n = pairs.len() - 1;
    let front = pairs.drop_last();
    let (name, value) = pairs.last();
    if is_header_name(name) && is_header_value(value) && k == lower_name(name) {
        assert(is_header_name(pairs[n].0));
    } else {
        law_headers_are_well_formed(front, k);
        let i = choose|i: int|
            0 <= i < front.len() && #[trigger] is_header_name(front[i].0) && is_header_value(
                front[i].1,
            ) && k == lower_name(front[i].0) && accepted(front)[k] == encode_utf8(front[i].1);
        assert(pairs[i] == front[i]);
        assert(is_header_name(pairs[i].0));
    }
}

/// A name is made of letters, digits and some signs, and is not empty; a value holds
/// no control characters but tabs. Names are kept in small letters.
pub proof fn law_header_characters(c: char, s: Seq<char>, i: int)
    ensures
        ({
            let n = c as int;
            &&& is_name_char(c) <==> (48 <= n <= 57 || 65 <= n <= 90 || 97 <= n <= 122 || n == 33
                || 35 <= n <= 39 || n == 42 || n == 43 || n == 45 || n == 46 || 94 <= n <= 96 || n
                == 124 || n == 126)
            &&& is_header_value(seq![c]) <==> (n >= 32 && n != 127) || n == 9
        }),
        is_header_name(s) <==> 0 < s.len() < 65536 && forall|k: int|
            0 <= k < s.len() ==> is_name_char(#[trigger] s[k]),
        lower_name(s).len() == s.len(),
        0 <= i < s.len() ==> lower_name(s)[i] == ascii_lower(s[i]),
{
    let one = seq![c];
    assert(one[0] == c);
    if (c as int >= 32 && c as int != 127) || c as int == 9 {
        assert(is_header_value(one));
    }
}

/// A pair of which the name and the value are accepted gives the header of its name
/// that value, in place of an earlier one; another gives none.
pub proof fn law_pairs_give_headers(
    pairs: Seq<(Seq<char>, Seq<char>)>,
    name: Seq<char>,
    value: Seq<char>,
)
    ensures
        is_header_name(name) && is_header_value(value) ==> accepted(pairs.push((name, value)))
            == accepted(pairs).insert(lower_name(name), encode_utf8(value)),
        !is_header_name(name) || !is_header_value(value) ==> accepted(pairs.push((name, value)))
            == accepted(pairs),
        accepted(Seq::empty()) == no_entries(),
        no_entries().dom().len() == 0,
{
    assert(pairs.push((name, value)).drop_last() =~= pairs);
}

} // verus!
