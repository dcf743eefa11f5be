//! The addresses that a setup session asks.

use vstd::prelude::*;
use vstd::utf8::encode_utf8;

use crate::channel_sessions::types::{said, ExtensionError};
use crate::text::{chars_of, concat2, ends_with, finishes_with, opt_text, same_text, starts_with};
use crate::text::{string_of, strip_trailing, trim, trimmed, without_trailing};

verus! {

/// The parts of an address, as they are written in it.
pub struct UrlView {
    /// The whole address in its normal form.
    pub text: Seq<char>,
    pub scheme: Seq<char>,
    pub username: Seq<char>,
    pub password: Option<Seq<char>>,
}

/// The parts of an address.
#[derive(Debug, PartialEq)]
pub struct UrlParts {
    pub text: String,
    pub scheme: String,
    pub username: String,
    pub password: Option<String>,
}

impl View for UrlParts {
    type V = UrlView;

    open spec fn view(&self) -> UrlView {
        UrlView {
            text: self.text@,
            scheme: self.scheme@,
            username: self.username@,
            password: opt_text(self.password),
        }
    }
}

/// The parts of the address that a text spells, or why it spells none.
pub uninterp spec fn url_of(text: Seq<char>) -> Result<UrlView, Seq<char>>;

/// What the outcome of taking an address apart is.
pub open spec fn url_outcome(r: Result<UrlParts, String>) -> Result<UrlView, Seq<char>> {
    match r {
        Ok(u) => Ok(u@),
        Err(e) => Err(e@),
    }
}

/// `url::Url::parse`, with the parts that `as_str`, `scheme`, `username` and
/// `password` give of its result, or the message of its error: a function of
/// the text. The normal form of an address starts with its scheme and a colon.
#[verifier::external_body]
fn parse_url(text: &str) -> (r: Result<UrlParts, String>)
    ensures
        url_outcome(r) == url_of(text@),
        r matches Ok(u) ==> starts_with(u.text@, u.scheme@ + ":"@),
{
    let url = url::Url::parse(text).map_err(|e| e.to_string())?;
    Ok(
        UrlParts {
            text: url.as_str().to_string(),
            scheme: url.scheme().to_string(),
            username: url.username().to_string(),
            password: url.password().map(|p| p.to_string()),
        },
    )
}

/// Whether a byte stands for itself in an encoded text.
pub open spec fn is_unreserved(b: u8) -> bool {
    ||| 0x30 <= b <= 0x39
    ||| 0x41 <= b <= 0x5a
    ||| 0x61 <= b <= 0x7a
    ||| b == 0x2d
    ||| b == 0x2e
    ||| b == 0x5f
    ||| b == 0x7e
}

/// The upper-case hexadecimal digit for a number below sixteen.
pub open spec fn upper_hex(n: int) -> char {
    if n < 10 {
        ('0' as int + n) as char
    } else {
        ('A' as int + n - 10) as char
    }
}

/// A byte of an encoded text.
pub open spec fn encoded_byte(b: u8) -> Seq<char> {
    if is_unreserved(b) {
        seq![b as char]
    } else {
        seq!['%', upper_hex(b as int / 16), upper_hex(b as int % 16)]
    }
}

/// Bytes with all but the unreserved ones written as percent signs and digits.
pub open spec fn encoded_bytes(s: Seq<u8>) -> Seq<char>
    decreases s.len(),
{
    if s.len() == 0 {
        seq![]
    } else {
        encoded_bytes(s.drop_last()) + encoded_byte(s.last())
    }
}

/// A text as the value of a query parameter.
pub open spec fn percent_encoded(s: Seq<char>) -> Seq<char> {
    encoded_bytes(encode_utf8(s))
}

/// `urlencoding::encode`: every byte of the text in UTF-8 but letters, digits,
/// `-`, `_`, `.` and `~` becomes a percent sign and two upper-case digits.
#[verifier::external_body]
pub(crate) fn url_encode(text: &str) -> (r: String)
    ensures
        r@ == percent_encoded(text@),
{
    urlencoding::encode(text).into_owned()
}

/// Whether a character can stand in an encoded text.
pub open spec fn is_encoded_char(c: char) -> bool {
    ||| '0' <= c <= '9'
    ||| 'A' <= c <= 'Z'
    ||| 'a' <= c <= 'z'
    ||| c == '-'
    ||| c == '.'
    ||| c == '_'
    ||| c == '~'
    ||| c == '%'
}

proof fn lemma_encoded_bytes(s: Seq<u8>)
    ensures
        forall|i: int|
            0 <= i < encoded_bytes(s).len() ==> is_encoded_char(#[trigger] encoded_bytes(s)[i]),
    decreases s.len(),
{
    if s.len() > 0 {
        lemma_encoded_bytes(s.drop_last());
        let b = s.last();
        assert forall|i: int| 0 <= i < encoded_byte(b).len() implies is_encoded_char(
            #[trigger] encoded_byte(b)[i],
        ) by {
            assert(0 <= b as int / 16 < 16);
        }
        assert forall|i: int| 0 <= i < encoded_bytes(s).len() implies is_encoded_char(
            #[trigger] encoded_bytes(s)[i],
        ) by {
            let n = encoded_bytes(s.drop_last()).len();
            if i >= n {
                assert(encoded_bytes(s)[i] == encoded_byte(b)[i - n]);
            }
        }
    }
}

/// An encoded text holds no character that has a meaning of its own in a query.
pub proof fn law_encoded_text_stays_in_its_parameter(s: Seq<char>)
    ensures
        forall|i: int|
            0 <= i < percent_encoded(s).len() ==> is_encoded_char(
                #[trigger] percent_encoded(s)[i],
            ),
        !percent_encoded(s).contains('&'),
        !percent_encoded(s).contains('='),
        !percent_encoded(s).contains('#'),
        !percent_encoded(s).contains('?'),
        !percent_encoded(s).contains('/'),
        !percent_encoded(s).contains(' '),
{
    lemma_encoded_bytes(encode_utf8(s));
}

/// An address that ends in a slash.
pub open spec fn slashed(url: Seq<char>) -> Seq<char> {
    if ends_with(url, "/"@) {
        url
    } else {
        url + "/"@
    }
}

/// The address with a slash at its end.
pub fn ensure_trailing_slash(url: &str) -> (r: String)
    ensures
        r@ == slashed(url@),
{
    let chars = chars_of(url);
    if finishes_with(chars.as_slice(), "/") {
        url.to_owned()
    } else {
        concat2(url, "/")
    }
}

/// What a guard says of an address: that it may be fetched, or why not.
pub open spec fn verdict(guard: Result<(), String>) -> Result<(), Seq<char>> {
    match guard {
        Ok(_) => Ok(()),
        Err(e) => Err(e@),
    }
}

/// The address that `base` and the rest form, if it may be asked.
pub open spec fn setup_url_of(
    base: Seq<char>,
    rest: Seq<char>,
    guard: Result<(), Seq<char>>,
) -> Result<Seq<char>, Seq<char>> {
    match url_of(slashed(base) + rest) {
        Err(e) => Err("Invalid setup URL: "@ + e),
        Ok(u) => match guard {
            Err(e) => Err("SSRF blocked: "@ + e),
            Ok(_) => if u.scheme != "https"@ {
                Err("setup URL must use HTTPS"@)
            } else if u.username.len() > 0 || u.password is Some {
                Err("setup URL must not contain embedded credentials"@)
            } else {
                Ok(u.text)
            },
        },
    }
}

/// The text of a base address, without the slashes behind it.
pub open spec fn bare_base(raw: Seq<char>) -> Seq<char> {
    strip_trailing(trim(raw), '/')
}

/// The base address that a text spells, if it may be asked.
pub open spec fn base_url_of(raw: Seq<char>, guard: Result<(), Seq<char>>) -> Result<
    Seq<char>,
    Seq<char>,
> {
    match url_of(bare_base(raw)) {
        Err(e) => Err("Invalid setup base URL: "@ + e),
        Ok(u) => match guard {
            Err(e) => Err("SSRF blocked: "@ + e),
            Ok(_) => if u.scheme != "https"@ {
                Err("setup base URL must use HTTPS"@)
            } else if u.username.len() > 0 || u.password is Some {
                Err("setup base URL must not contain embedded credentials"@)
            } else {
                Ok(bare_base(raw))
            },
        },
    }
}

/// The normal form of an address that is to be shown to the guard.
pub open spec fn guarded_text(
    url: Result<UrlView, Seq<char>>,
    complaint: Seq<char>,
) -> Result<Seq<char>, Seq<char>> {
    match url {
        Ok(u) => Ok(u.text),
        Err(e) => Err(complaint + e),
    }
}

fn no_name(s: &str) -> (r: bool)
    ensures
        r == (s@.len() == 0),
{
    chars_of(s).len() == 0
}

/// The address that the guard is asked about before `ilink_qr_setup_url`.
pub fn setup_url_to_check(base_url: &str, path_and_query: &str) -> (r: Result<
    String,
    ExtensionError,
>)
    ensures
        said(r) == guarded_text(
            url_of(slashed(base_url@) + path_and_query@),
            "Invalid setup URL: "@,
        ),
{
    let base = ensure_trailing_slash(base_url);
    match parse_url(concat2(base.as_str(), path_and_query).as_str()) {
        Ok(u) => Ok(u.text),
        Err(e) => Err(ExtensionError::Other(concat2("Invalid setup URL: ", e.as_str()))),
    }
}

/// The address that a base address and the rest form, given what the guard says
/// of it. It is asked by HTTPS only, and carries no credentials.
pub fn ilink_qr_setup_url(base_url: &str, path_and_query: &str, guard: Result<(), String>) -> (r:
    Result<String, ExtensionError>)
    ensures
        said(r) == setup_url_of(base_url@, path_and_query@, verdict(guard)),
        r matches Ok(url) ==> starts_with(url@, "https:"@),
{
    let base = ensure_trailing_slash(base_url);
    let url = match parse_url(concat2(base.as_str(), path_and_query).as_str()) {
        Ok(u) => u,
        Err(e) => {
            return Err(ExtensionError::Other(concat2("Invalid setup URL: ", e.as_str())));
        },
    };
    if let Err(e) = guard {
        return Err(ExtensionError::Other(concat2("SSRF blocked: ", e.as_str())));
    }
    if !same_text(url.scheme.as_str(), "https") {
        return Err(ExtensionError::Other("setup URL must use HTTPS".to_owned()));
    }
    if !no_name(url.username.as_str()) || url.password.is_some() {
        return Err(
            ExtensionError::Other("setup URL must not contain embedded credentials".to_owned()),
        );
    }
    proof {
        reveal_strlit("https");
        reveal_strlit(":");
        reveal_strlit("https:");
        assert("https"@ + ":"@ =~= "https:"@);
    }
    Ok(url.text)
}

/// The address that the guard is asked about before `normalize_setup_base_url`.
pub fn base_url_to_check(base_url: &str) -> (r: Result<String, ExtensionError>)
    ensures
        said(r) == guarded_text(url_of(bare_base(base_url@)), "Invalid setup base URL: "@),
{
    let chars = chars_of(base_url);
    let bare = string_of(without_trailing(trimmed(chars.as_slice()), '/'));
    match parse_url(bare.as_str()) {
        Ok(u) => Ok(u.text),
        Err(e) => Err(ExtensionError::Other(concat2("Invalid setup base URL: ", e.as_str()))),
    }
}

/// The base address that a text spells, given what the guard says of it. It is
/// asked by HTTPS only, and carries no credentials.
pub fn normalize_setup_base_url(base_url: &str, guard: Result<(), String>) -> (r: Result<
    String,
    ExtensionError,
>)
    ensures
        said(r) == base_url_of(base_url@, verdict(guard)),
{
    let chars = chars_of(base_url);
    let bare = string_of(without_trailing(trimmed(chars.as_slice()), '/'));
    let parsed = match parse_url(bare.as_str()) {
        Ok(u) => u,
        Err(e) => {
            return Err(ExtensionError::Other(concat2("Invalid setup base URL: ", e.as_str())));
        },
    };
    if let Err(e) = guard {
        return Err(ExtensionError::Other(concat2("SSRF blocked: ", e.as_str())));
    }
    if !same_text(parsed.scheme.as_str(), "https") {
        return Err(ExtensionError::Other("setup base URL must use HTTPS".to_owned()));
    }
    if !no_name(parsed.username.as_str()) || parsed.password.is_some() {
        return Err(
            ExtensionError::Other(
                "setup base URL must not contain embedded credentials".to_owned(),
            ),
        );
    }
    Ok(bare)
}

/// A base address is kept without slashes behind it.
pub proof fn law_base_urls_are_bare(raw: Seq<char>, guard: Result<(), Seq<char>>)
    requires
        base_url_of(raw, guard) is Ok,
    ensures
        ({
            let base = base_url_of(raw, guard)->Ok_0;
            base.len() > 0 ==> base.last() != '/'
        }),
{
    crate::text::lemma_strip_trailing(trim(raw), '/');
}

/// Letters, digits and four signs stand for themselves in a query, and every other
/// byte is written as a percent sign and two capital hexadecimal digits.
pub proof fn law_percent_encoding(a: Seq<char>, b: Seq<char>, x: u8)
    ensures
        percent_encoded(a + b) == percent_encoded(a) + percent_encoded(b),
        (48 <= x <= 57 || 65 <= x <= 90 || 97 <= x <= 122 || x == 45 || x == 46 || x == 95 || x
            == 126) ==> encoded_byte(x) == seq![x as char],
        !(48 <= x <= 57 || 65 <= x <= 90 || 97 <= x <= 122 || x == 45 || x == 46 || x == 95 || x
            == 126) ==> {
            &&& encoded_byte(x).len() == 3
            &&& encoded_byte(x)[0] == '%'
            &&& encoded_byte(x)[1] as int == if x / 16 < 10 {
                48 + x / 16
            } else {
                55 + x / 16
            }
            &&& encoded_byte(x)[2] as int == if x % 16 < 10 {
                48 + x % 16
            } else {
                55 + x % 16
            }
        },
        encoded_bytes(seq![x]) == encoded_byte(x),
{
    crate::bytes::lemma_encode_concat(a, b);
    lemma_encoded_concat(encode_utf8(a), encode_utf8(b));
    let none = Seq::<u8>::empty();
    assert(encoded_bytes(none) =~= Seq::<char>::empty());
    assert(seq![x].drop_last() =~= none);
    assert(encoded_bytes(seq![x]) =~= encoded_byte(x));
}

proof fn lemma_encoded_concat(a: Seq<u8>, b: Seq<u8>)
    ensures
        encoded_bytes(a + b) == encoded_bytes(a) + encoded_bytes(b),
    decreases b.len(),
{
    if b.len() == 0 {
        assert(a + b =~= a);
        assert(encoded_bytes(a) + encoded_bytes(b) =~= encoded_bytes(a));
    } else {
        assert((a + b).drop_last() =~= a + b.drop_last());
        lemma_encoded_concat(a, b.drop_last());
        assert(encoded_bytes(a + b) =~= encoded_bytes(a) + encoded_bytes(b));
    }
}

/// An address is used only where it can be read, the guard lets it pass, it is asked
/// by HTTPS and carries no credentials. It is the base address with one slash and
/// what is asked for behind it; a base address is kept without white space around it
/// and slashes behind it.
pub proof fn law_addresses_are_checked(
    base: Seq<char>,
    rest: Seq<char>,
    guard: Result<(), Seq<char>>,
)
    ensures
        base.len() > 0 && base.last() == '/' ==> slashed(base) == base,
        base.len() == 0 || base.last() != '/' ==> slashed(base) == base.push('/'),
        match url_of(slashed(base) + rest) {
            Err(e) => setup_url_of(base, rest, guard) == Err::<Seq<char>, Seq<char>>(
                "Invalid setup URL: "@ + e,
            ),
            Ok(u) => {
                let bare = u.username.len() == 0 && u.password is None;
                &&& guard matches Err(e) ==> setup_url_of(base, rest, guard) == Err::<
                    Seq<char>,
                    Seq<char>,
                >("SSRF blocked: "@ + e)
                &&& guard is Ok && u.scheme == "https"@ && bare ==> setup_url_of(base, rest, guard)
                    == Ok::<Seq<char>, Seq<char>>(u.text)
                &&& guard is Ok && !(u.scheme == "https"@ && bare) ==> setup_url_of(
                    base,
                    rest,
                    guard,
                ) is Err
            },
        },
        match url_of(strip_trailing(trim(base), '/')) {
            Err(e) => base_url_of(base, guard) == Err::<Seq<char>, Seq<char>>(
                "Invalid setup base URL: "@ + e,
            ),
            Ok(u) => {
                let bare = u.username.len() == 0 && u.password is None;
                &&& guard matches Err(e) ==> base_url_of(base, guard) == Err::<
                    Seq<char>,
                    Seq<char>,
                >("SSRF blocked: "@ + e)
                &&& guard is Ok && u.scheme == "https"@ && bare ==> base_url_of(base, guard)
                    == Ok::<Seq<char>, Seq<char>>(strip_trailing(trim(base), '/'))
                &&& guard is Ok && !(u.scheme == "https"@ && bare) ==> base_url_of(base, guard)
                    is Err
            },
        },
{
    reveal_strlit("/");
    assert("/"@ =~= seq!['/']);
    if base.len() > 0 {
        assert(base.subrange(base.len() - 1, base.len() as int) =~= seq![base.last()]);
        if ends_with(base, "/"@) {
            assert(base.subrange(base.len() - 1, base.len() as int)[0] == '/');
        }
    }
    assert(base + "/"@ =~= base.push('/'));
}

/// The address that is put to the guard is the one that was read; where none can be
/// read, the complaint says why.
pub proof fn law_guards_see_the_address(url: UrlView, e: Seq<char>, complaint: Seq<char>)
    ensures
        guarded_text(Ok(url), complaint) == Ok::<Seq<char>, Seq<char>>(url.text),
        guarded_text(Err(e), complaint) == Err::<Seq<char>, Seq<char>>(complaint + e),
{
}

/// An address that is refused is refused with the reason.
pub proof fn law_addresses_are_refused_with_the_reason(base: Seq<char>, rest: Seq<char>)
    ensures
        url_of(slashed(base) + rest) matches Ok(u) ==> {
            &&& u.scheme != "https"@ ==> setup_url_of(base, rest, Ok(())) == Err::<
                Seq<char>,
                Seq<char>,
            >("setup URL must use HTTPS"@)
            &&& u.scheme == "https"@ && (u.username.len() > 0 || u.password is Some)
                ==> setup_url_of(base, rest, Ok(())) == Err::<Seq<char>, Seq<char>>(
                "setup URL must not contain embedded credentials"@,
            )
        },
        url_of(strip_trailing(trim(base), '/')) matches Ok(u) ==> {
            &&& u.scheme != "https"@ ==> base_url_of(base, Ok(())) == Err::<
                Seq<char>,
                Seq<char>,
            >("setup base URL must use HTTPS"@)
            &&& u.scheme == "https"@ && (u.username.len() > 0 || u.password is Some)
                ==> base_url_of(base, Ok(())) == Err::<Seq<char>, Seq<char>>(
                "setup base URL must not contain embedded credentials"@,
            )
        },
{
}

/// An address is seen as it was taken apart.
pub proof fn law_addresses_are_seen_as_they_are(u: UrlParts)
    ensures
        u@.text == u.text@,
        u@.scheme == u.scheme@,
        u@.username == u.username@,
        u.password matches Some(p) ==> u@.password == Some(p@),
        u.password is None ==> u@.password is None,
{
}

} // verus!
