//! Numbers as text: integers in decimal, and the decimal fractions that a
//! scalar can spell.

use vstd::prelude::*;
use vstd::slice::slice_subrange;

use crate::text::{alike, push_slice, split_at_char, string_of, without_leading};
use crate::text::{same_ignoring_ascii_case, split_once, strip_leading};
use crate::text::{ascii_lower, law_cutting_at_a_character, law_splitting_once};

verus! {

/// Whether `c` is a decimal digit.
pub open spec fn is_digit(c: char) -> bool {
    '0' <= c <= '9'
}

/// Whether every character of `s` is a decimal digit.
pub open spec fn all_digits(s: Seq<char>) -> bool {
    forall|i: int| 0 <= i < s.len() ==> is_digit(#[trigger] s[i])
}

/// The number that a run of digits stands for.
pub open spec fn digits_value(s: Seq<char>) -> nat
    decreases s.len(),
{
    if s.len() == 0 {
        0
    } else {
        digits_value(s.drop_last()) * 10 + (s.last() as nat - '0' as nat) as nat
    }
}

/// The text without one leading sign.
pub open spec fn unsigned_part(s: Seq<char>) -> Seq<char> {
    if s.len() > 0 && (s.first() == '+' || s.first() == '-') {
        s.drop_first()
    } else {
        s
    }
}

/// Whether the text begins with a minus sign.
pub open spec fn is_negative(s: Seq<char>) -> bool {
    s.len() > 0 && s.first() == '-'
}

/// The integer that `s` spells: an optional sign and at least one digit.
pub open spec fn int_value(s: Seq<char>) -> Option<int> {
    let u = unsigned_part(s);
    if u.len() > 0 && all_digits(u) {
        Some(
            if is_negative(s) {
                -(digits_value(u) as int)
            } else {
                digits_value(u) as int
            },
        )
    } else {
        None
    }
}

/// The integer that `s` spells, where it lies between `low` and `high`.
pub open spec fn int_value_in(s: Seq<char>, low: int, high: int) -> Option<int> {
    match int_value(s) {
        Some(v) => if low <= v <= high {
            Some(v)
        } else {
            None
        },
        None => None,
    }
}

/// The decimal digits of `n`.
pub open spec fn decimal(n: nat) -> Seq<char>
    decreases n,
{
    if n < 10 {
        seq![('0' as nat + n) as char]
    } else {
        decimal(n / 10).push(('0' as nat + n % 10) as char)
    }
}

/// `n` in decimal, with a minus sign where it is negative.
pub open spec fn decimal_int(n: int) -> Seq<char> {
    if n < 0 {
        seq!['-'] + decimal((-n) as nat)
    } else {
        decimal(n as nat)
    }
}

/// How a text reads as a decimal fraction.
pub enum FractionView {
    /// It does not.
    NotANumber,
    /// It names an infinity or the absence of a number.
    NotFinite,
    /// It is the number with this spelling: digits, a point, digits and
    /// perhaps an exponent, the first digit being zero only before the point.
    Spelled(Seq<char>),
}

/// Whether `s` is an exponent: an optional sign and at least one digit.
pub open spec fn is_exponent(s: Seq<char>) -> bool {
    unsigned_part(s).len() > 0 && all_digits(unsigned_part(s))
}

/// The digits before the point, without leading zeros but for a last one.
pub open spec fn whole_spelling(a: Seq<char>) -> Seq<char> {
    let d = strip_leading(a, '0');
    if d.len() == 0 {
        seq!['0']
    } else {
        d
    }
}

/// The digits behind the point, at least one.
pub open spec fn rest_spelling(b: Seq<char>) -> Seq<char> {
    if b.len() == 0 {
        seq!['0']
    } else {
        b
    }
}

/// The spelling of a mantissa, where it has a digit and at most one point.
pub open spec fn mantissa_spelling(m: Seq<char>) -> Option<Seq<char>> {
    let (a, b) = match split_once(m, '.') {
        Some(p) => p,
        None => (m, Seq::<char>::empty()),
    };
    if all_digits(a) && all_digits(b) && a.len() + b.len() > 0 {
        Some(whole_spelling(a) + seq!['.'] + rest_spelling(b))
    } else {
        None
    }
}

/// Where the exponent of `u` begins.
pub open spec fn at_exponent(u: Seq<char>) -> Option<(Seq<char>, Seq<char>)> {
    match split_once(u, 'e') {
        Some(p) => Some(p),
        None => split_once(u, 'E'),
    }
}

/// How `s` reads as a decimal fraction: an optional sign, then a mantissa and
/// perhaps an exponent, or a name of an infinity or of no number.
pub open spec fn fraction(s: Seq<char>) -> FractionView {
    let u = unsigned_part(s);
    let sign = if is_negative(s) {
        seq!['-']
    } else {
        Seq::<char>::empty()
    };
    if same_ignoring_ascii_case(u, "inf"@) || same_ignoring_ascii_case(u, "infinity"@)
        || same_ignoring_ascii_case(u, "nan"@) {
        FractionView::NotFinite
    } else {
        match at_exponent(u) {
            Some(p) => match mantissa_spelling(p.0) {
                Some(m) => if is_exponent(p.1) {
                    FractionView::Spelled(sign + m + seq!['e'] + p.1)
                } else {
                    FractionView::NotANumber
                },
                None => FractionView::NotANumber,
            },
            None => match mantissa_spelling(u) {
                Some(m) => FractionView::Spelled(sign + m),
                None => FractionView::NotANumber,
            },
        }
    }
}

/// How a text reads as a decimal fraction.
pub enum Fraction {
    /// It does not.
    NotANumber,
    /// It names an infinity or the absence of a number.
    NotFinite,
    /// It is the number with this spelling.
    Spelled(Vec<char>),
}

impl View for Fraction {
    type V = FractionView;

    open spec fn view(&self) -> FractionView {
        match self {
            Fraction::NotANumber => FractionView::NotANumber,
            Fraction::NotFinite => FractionView::NotFinite,
            Fraction::Spelled(s) => FractionView::Spelled(s@),
        }
    }
}

/// Whether every character of `s` is a decimal digit.
pub fn digits_only(s: &[char]) -> (r: bool)
    ensures
        r == all_digits(s@),
{
    let mut i: usize = 0;
    while i < s.len()
        invariant
            i <= s@.len(),
            forall|j: int| 0 <= j < i ==> is_digit(#[trigger] s@[j]),
        decreases s@.len() - i,
    {
        if s[i] < '0' || s[i] > '9' {
            assert(!is_digit(s@[i as int]));
            return false;
        }
        i += 1;
    }
    true
}

/// `s` without one leading sign.
pub fn without_sign<'a>(s: &'a [char]) -> (r: &'a [char])
    ensures
        r@ == unsigned_part(s@),
{
    if s.len() > 0 && (s[0] == '+' || s[0] == '-') {
        assert(s@.subrange(1, s@.len() as int) == s@.drop_first());
        slice_subrange(s, 1, s.len())
    } else {
        s
    }
}

/// A longer run of digits stands for a number that is no smaller.
proof fn lemma_digits_grow(s: Seq<char>, k: int)
    requires
        0 <= k <= s.len(),
        all_digits(s),
    ensures
        digits_value(s.take(k)) <= digits_value(s),
    decreases s.len() - k,
{
    if k < s.len() {
        lemma_digits_grow(s, k + 1);
        assert(s.take(k + 1).drop_last() == s.take(k));
        assert(is_digit(s[k]));
    } else {
        assert(s.take(k) == s);
    }
}

/// The number that a run of digits stands for, where it is at most `cap`.
fn digits_up_to(s: &[char], cap: u64) -> (r: Option<u64>)
    requires
        all_digits(s@),
    ensures
        match r {
            Some(v) => v == digits_value(s@) && v <= cap,
            None => digits_value(s@) > cap,
        },
{
    let mut acc: u128 = 0;
    let mut i: usize = 0;
    while i < s.len()
        invariant
            i <= s@.len(),
            all_digits(s@),
            acc == digits_value(s@.take(i as int)),
            acc <= cap,
        decreases s@.len() - i,
    {
        assert(s@.take(i + 1).drop_last() == s@.take(i as int));
        assert(is_digit(s@[i as int]));
        acc = acc * 10 + (s[i] as u128 - '0' as u128);
        i += 1;
        if acc > cap as u128 {
            proof {
                lemma_digits_grow(s@, i as int);
            }
            return None;
        }
    }
    assert(s@.take(i as int) == s@);
    Some(acc as u64)
}

/// The `i64` that `s` spells.
pub fn parse_i64(s: &[char]) -> (r: Option<i64>)
    ensures
        match r {
            Some(v) => int_value_in(s@, i64::MIN as int, i64::MAX as int) == Some(v as int),
            None => int_value_in(s@, i64::MIN as int, i64::MAX as int) is None,
        },
{
    let u = without_sign(s);
    if u.len() == 0 || !digits_only(u) {
        return None;
    }
    if s[0] == '-' {
        match digits_up_to(u, 9223372036854775808u64) {
            Some(v) => if v == 9223372036854775808u64 {
                Some(i64::MIN)
            } else {
                Some(-(v as i64))
            },
            None => None,
        }
    } else {
        match digits_up_to(u, 9223372036854775807u64) {
            Some(v) => Some(v as i64),
            None => None,
        }
    }
}

/// The `i32` that `s` spells.
pub fn parse_i32(s: &[char]) -> (r: Option<i32>)
    ensures
        match r {
            Some(v) => int_value_in(s@, i32::MIN as int, i32::MAX as int) == Some(v as int),
            None => int_value_in(s@, i32::MIN as int, i32::MAX as int) is None,
        },
{
    match parse_i64(s) {
        Some(v) => if i32::MIN as i64 <= v && v <= i32::MAX as i64 {
            Some(v as i32)
        } else {
            None
        },
        None => None,
    }
}

/// Puts the decimal digits of `n` behind `out`.
fn push_digits(out: &mut Vec<char>, n: u64)
    ensures
        final(out)@ == old(out)@ + decimal(n as nat),
    decreases n,
{
    let low: u8 = (n % 10) as u8;
    if n >= 10 {
        push_digits(out, n / 10);
    }
    out.push(('0' as u8 + low) as char);
    assert(out@ =~= old(out)@ + decimal(n as nat));
}

/// `n` in decimal.
pub fn write_u64(n: u64) -> (r: String)
    ensures
        r@ == decimal(n as nat),
{
    let mut out: Vec<char> = Vec::new();
    push_digits(&mut out, n);
    string_of(out.as_slice())
}

/// `n` in decimal.
pub fn write_i64(n: i64) -> (r: String)
    ensures
        r@ == decimal_int(n as int),
{
    let mut out: Vec<char> = Vec::new();
    if n < 0 {
        out.push('-');
        if n == i64::MIN {
            push_digits(&mut out, 9223372036854775808u64);
        } else {
            push_digits(&mut out, (-n) as u64);
        }
    } else {
        push_digits(&mut out, n as u64);
    }
    assert(out@ =~= decimal_int(n as int));
    string_of(out.as_slice())
}

/// The spelling of a mantissa.
fn spell_mantissa(m: &[char]) -> (r: Option<Vec<char>>)
    ensures
        match r {
            Some(v) => mantissa_spelling(m@) == Some(v@),
            None => mantissa_spelling(m@) is None,
        },
{
    let empty: Vec<char> = Vec::new();
    let (a, b): (&[char], &[char]) = match split_at_char(m, '.') {
        Some(p) => p,
        None => (m, empty.as_slice()),
    };
    assert(empty@ =~= Seq::<char>::empty());
    if !digits_only(a) || !digits_only(b) || (a.len() == 0 && b.len() == 0) {
        return None;
    }
    let mut out: Vec<char> = Vec::new();
    let d = without_leading(a, '0');
    if d.len() == 0 {
        out.push('0');
    } else {
        push_slice(&mut out, d);
    }
    assert(out@ =~= whole_spelling(a@));
    out.push('.');
    if b.len() == 0 {
        out.push('0');
    } else {
        push_slice(&mut out, b);
    }
    assert(out@ =~= whole_spelling(a@) + seq!['.'] + rest_spelling(b@));
    Some(out)
}

/// How `s` reads as a decimal fraction.
pub fn read_fraction(s: &[char]) -> (r: Fraction)
    ensures
        r@ == fraction(s@),
{
    let u = without_sign(s);
    if alike(u, "inf") || alike(u, "infinity") || alike(u, "nan") {
        return Fraction::NotFinite;
    }
    let mut out: Vec<char> = Vec::new();
    if s.len() > 0 && s[0] == '-' {
        out.push('-');
    }
    let ghost sign = out@;
    assert(sign =~= if is_negative(s@) {
        seq!['-']
    } else {
        Seq::<char>::empty()
    });
    let cut = match split_at_char(u, 'e') {
        Some(p) => Some(p),
        None => split_at_char(u, 'E'),
    };
    match cut {
        Some(p) => {
            let power = without_sign(p.1);
            match spell_mantissa(p.0) {
                Some(m) => {
                    if power.len() == 0 || !digits_only(power) {
                        return Fraction::NotANumber;
                    }
                    push_slice(&mut out, m.as_slice());
                    out.push('e');
                    push_slice(&mut out, p.1);
                    assert(out@ =~= sign + m@ + seq!['e'] + p.1@);
                    Fraction::Spelled(out)
                },
                None => Fraction::NotANumber,
            }
        },
        None => match spell_mantissa(u) {
            Some(m) => {
                push_slice(&mut out, m.as_slice());
                Fraction::Spelled(out)
            },
            None => Fraction::NotANumber,
        },
    }
}

proof fn lemma_decimal(n: nat)
    ensures
        decimal(n).len() > 0,
        all_digits(decimal(n)),
        digits_value(decimal(n)) == n,
    decreases n,
{
    let d = decimal(n);
    if n < 10 {
        assert(d.drop_last() =~= Seq::<char>::empty());
        assert(digits_value(d.drop_last()) == 0);
    } else {
        lemma_decimal(n / 10);
        assert(d.drop_last() =~= decimal(n / 10));
        assert(d.last() as nat - '0' as nat == n % 10);
    }
}

/// An integer that is written in decimal is read back.
pub proof fn law_integers_are_read_back(n: int)
    ensures
        int_value(decimal_int(n)) == Some(n),
{
    if n < 0 {
        let d = decimal((-n) as nat);
        lemma_decimal((-n) as nat);
        assert((seq!['-'] + d).drop_first() =~= d);
    } else {
        lemma_decimal(n as nat);
        assert(is_digit(decimal(n as nat)[0]));
    }
}

/// A number below ten is written as its digit, and any other as the number of its
/// tens and the digit of its ones behind it.
pub proof fn law_decimal_digits(n: nat)
    ensures
        n < 10 ==> decimal(n).len() == 1 && decimal(n)[0] as int == 48 + n,
        n >= 10 ==> decimal(n).len() == decimal(n / 10).len() + 1 && decimal(n).drop_last()
            == decimal(n / 10) && decimal(n).last() as int == 48 + n % 10,
        decimal_int(n as int) == decimal(n),
        n > 0 ==> decimal_int(-(n as int)) == seq!['-'] + decimal(n),
{
    if n >= 10 {
        assert(decimal(n).drop_last() =~= decimal(n / 10));
    }
}

/// Digits are read as the number that they write, with a sign in front of them or
/// without one; nothing else is read as an integer.
pub proof fn law_integers_are_read(u: Seq<char>, c: char)
    requires
        u.len() > 0,
        all_digits(u),
    ensures
        int_value(u) == Some(digits_value(u) as int),
        int_value(seq!['+'] + u) == Some(digits_value(u) as int),
        int_value(seq!['-'] + u) == Some(-(digits_value(u) as int)),
        is_digit(c) ==> digits_value(u.push(c)) == 10 * digits_value(u) + (c as int - 48),
        !is_digit(c) ==> int_value(u.push(c)) is None,
        is_digit(c) <==> 48 <= c as int <= 57,
{
    assert(is_digit(u[0]));
    assert((seq!['+'] + u).drop_first() =~= u);
    assert((seq!['-'] + u).drop_first() =~= u);
    assert(u.push(c).drop_last() =~= u);
    if !is_digit(c) {
        let v = u.push(c);
        assert(unsigned_part(v) == v);
        assert(v[u.len() as int] == c);
    }
}

/// Digits with a point between them are a fraction as they are spelled, without
/// needless zeros in front.
pub proof fn law_fractions_are_read(a: Seq<char>, b: Seq<char>)
    requires
        a.len() > 0,
        b.len() > 0,
        all_digits(a),
        all_digits(b),
        a[0] != '0' || a.len() == 1,
    ensures
        fraction(a + seq!['.'] + b) == FractionView::Spelled(a + seq!['.'] + b),
        fraction(seq!['-'] + (a + seq!['.'] + b)) == FractionView::Spelled(
            seq!['-'] + (a + seq!['.'] + b),
        ),
{
    let u = a + seq!['.'] + b;
    assert(is_digit(a[0]));
    assert forall|i: int| 0 <= i < u.len() implies is_digit(#[trigger] u[i]) || u[i] == '.' by {
        if i > a.len() {
            assert(u[i] == b[i - a.len() - 1]);
        }
    }
    law_splitting_once(u, 'e');
    law_splitting_once(u, 'E');
    assert(!u.contains('e') && !u.contains('E'));
    match split_once(u, 'e') {
        Some(p) => {
            assert(u[p.0.len() as int] == 'e');
        },
        None => {},
    }
    match split_once(u, 'E') {
        Some(p) => {
            assert(u[p.0.len() as int] == 'E');
        },
        None => {},
    }
    assert(!a.contains('.'));
    law_cutting_at_a_character(a, '.', b);
    reveal_strlit("inf");
    reveal_strlit("infinity");
    reveal_strlit("nan");
    assert(ascii_lower(u[0]) == u[0]);
    assert(ascii_lower("inf"@[0]) == 'i');
    assert(ascii_lower("infinity"@[0]) == 'i');
    assert(ascii_lower("nan"@[0]) == 'n');
    if a[0] == '0' {
        assert(a.drop_first() =~= Seq::<char>::empty());
        assert(strip_leading(a.drop_first(), '0') =~= Seq::<char>::empty());
        assert(a =~= seq!['0']);
    }
    assert(whole_spelling(a) =~= a);
    assert(unsigned_part(u) == u);
    assert((seq!['-'] + u).drop_first() =~= u);
    assert(Seq::<char>::empty() + u =~= u);
}

/// A sign alone and nothing at all are no integers, and bounds are within what they
/// bound. An exponent is an integer.
pub proof fn law_integers_have_digits_and_bounds(s: Seq<char>, low: int, high: int)
    ensures
        int_value(seq![]) is None,
        int_value(seq!['+']) is None,
        int_value(seq!['-']) is None,
        int_value(s) matches Some(v) ==> (low <= v && v <= high ==> int_value_in(s, low, high)
            == Some(v)) && (v < low || v > high ==> int_value_in(s, low, high) is None),
        int_value(s) is None ==> int_value_in(s, low, high) is None,
        is_exponent(s) <==> int_value(s) is Some,
{
    assert(seq!['+'].drop_first().len() == 0);
    assert(seq!['-'].drop_first().len() == 0);
}

/// Digits with an exponent behind them are a fraction where the exponent is an
/// integer, and are none where it is not.
pub proof fn law_exponents_are_read(a: Seq<char>, x: Seq<char>)
    requires
        a.len() > 0,
        all_digits(a),
        a[0] != '0',
    ensures
        int_value(x) is Some ==> fraction(a + seq!['e'] + x) == FractionView::Spelled(
            a + seq!['.', '0', 'e'] + x,
        ),
        int_value(x) is None ==> fraction(a + seq!['e'] + x) == FractionView::NotANumber,
{
    let u = a + seq!['e'] + x;
    assert(is_digit(a[0]));
    assert(forall|i: int| 0 <= i < a.len() ==> is_digit(#[trigger] a[i]));
    assert(!a.contains('e') && !a.contains('.'));
    law_cutting_at_a_character(a, 'e', x);
    law_splitting_once(a, '.');
    match split_once(a, '.') {
        Some(p) => {
            assert(a[p.0.len() as int] == '.');
        },
        None => {},
    }
    reveal_strlit("inf");
    reveal_strlit("infinity");
    reveal_strlit("nan");
    assert(u[0] == a[0]);
    assert(ascii_lower(u[0]) == u[0]);
    assert(ascii_lower("inf"@[0]) == 'i');
    assert(ascii_lower("infinity"@[0]) == 'i');
    assert(ascii_lower("nan"@[0]) == 'n');
    assert(whole_spelling(a) == a);
    assert(unsigned_part(u) == u);
    law_integers_have_digits_and_bounds(x, 0, 0);
    assert(Seq::<char>::empty() + (a + seq!['.'] + seq!['0']) + seq!['e'] + x =~= a + seq![
        '.',
        '0',
        'e',
    ] + x);
}

} // verus!
