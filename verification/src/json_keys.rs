//! The keys of a JSON object as they stand in its text. The value that a text
//! stands for has each key once; the text itself may name a key more than once.

use vstd::prelude::*;

use crate::json::{items_view, lemma_items_view, Json, JsonView};
use crate::json_text::read_tree;
use crate::text::{chars_of, same_text, string_of};

verus! {

/// How far a JSON text has been gone through: how many brackets and braces stand
/// open, whether a string stands open and its next character is escaped, and what
/// the text has become so far.
pub struct ScanView {
    pub depth: nat,
    pub quoted: bool,
    pub escaped: bool,
    pub text: Seq<char>,
}

/// One character further. The outermost braces become brackets and the colons
/// right inside them become commas; all else stays.
pub open spec fn scan_char(s: ScanView, c: char) -> ScanView {
    if s.quoted {
        ScanView {
            depth: s.depth,
            quoted: s.escaped || c != '"',
            escaped: !s.escaped && c == '\\',
            text: s.text.push(c),
        }
    } else if c == '"' {
        ScanView { depth: s.depth, quoted: true, escaped: false, text: s.text.push(c) }
    } else if c == '{' || c == '[' {
        ScanView {
            depth: s.depth + 1,
            quoted: false,
            escaped: false,
            text: s.text.push(
                if s.depth == 0 {
                    '['
                } else {
                    c
                },
            ),
        }
    } else if (c == '}' || c == ']') && s.depth > 0 {
        ScanView {
            depth: (s.depth - 1) as nat,
            quoted: false,
            escaped: false,
            text: s.text.push(
                if s.depth == 1 {
                    ']'
                } else {
                    c
                },
            ),
        }
    } else if c == ':' && s.depth == 1 {
        ScanView { depth: s.depth, quoted: false, escaped: false, text: s.text.push(',') }
    } else {
        ScanView { depth: s.depth, quoted: false, escaped: false, text: s.text.push(c) }
    }
}

/// A JSON text, gone through from its start.
pub open spec fn scan(s: Seq<char>) -> ScanView
    decreases s.len(),
{
    if s.len() == 0 {
        ScanView { depth: 0, quoted: false, escaped: false, text: seq![] }
    } else {
        scan_char(scan(s.drop_last()), s.last())
    }
}

/// The text of an object as the text of an array: its keys and their values by
/// turns, in the order in which they stand there.
pub open spec fn entry_list(s: Seq<char>) -> Seq<char> {
    scan(s).text
}

/// How often a text stands among the items of a list at the places of keys: at the
/// first, the third and so on.
pub open spec fn times_named(items: Seq<JsonView>, key: Seq<char>) -> nat
    decreases items.len(),
{
    if items.len() == 0 {
        0
    } else if items.len() % 2 == 1 && items.last() == JsonView::Text(key) {
        times_named(items.drop_last(), key) + 1
    } else {
        times_named(items.drop_last(), key)
    }
}

/// Whether the text of an object names a key once and no more.
pub open spec fn names_once(s: Seq<char>, key: Seq<char>) -> bool {
    read_tree(entry_list(s)) matches Some(JsonView::Array(items)) && times_named(items, key) == 1
}

/// Going through a text changes single characters only.
pub proof fn law_entry_list_keeps_the_length(s: Seq<char>)
    ensures
        entry_list(s).len() == s.len(),
    decreases s.len(),
{
    if s.len() > 0 {
        law_entry_list_keeps_the_length(s.drop_last());
    }
}

fn list_entries(s: &str) -> (r: String)
    ensures
        r@ == entry_list(s@),
{
    let chars = chars_of(s);
    let mut out: Vec<char> = Vec::new();
    let mut depth: usize = 0;
    let mut quoted: bool = false;
    let mut escaped: bool = false;
    let mut i: usize = 0;
    assert(chars@.take(0) =~= Seq::<char>::empty());
    assert(out@ =~= Seq::<char>::empty());
    while i < chars.len()
        invariant
            i <= chars@.len(),
            chars@ == s@,
            depth <= i,
            scan(chars@.take(i as int)) == (ScanView {
                depth: depth as nat,
                quoted,
                escaped,
                text: out@,
            }),
        decreases chars@.len() - i,
    {
        let c = chars[i];
        assert(chars@.take(i + 1).drop_last() == chars@.take(i as int));
        assert(chars@.take(i + 1).last() == c);
        let mut put: char = c;
        if quoted {
            quoted = escaped || c != '"';
            escaped = !escaped && c == '\\';
        } else {
            escaped = false;
            if c == '"' {
                quoted = true;
            } else if c == '{' || c == '[' {
                if depth == 0 {
                    put = '[';
                }
                depth += 1;
            } else if (c == '}' || c == ']') && depth > 0 {
                if depth == 1 {
                    put = ']';
                }
                depth -= 1;
            } else if c == ':' && depth == 1 {
                put = ',';
            }
        }
        out.push(put);
        i += 1;
    }
    assert(chars@.take(i as int) == chars@);
    string_of(out.as_slice())
}

/// Whether the text of an object names a key once and no more.
pub fn key_stands_once(s: &str, key: &str) -> (r: bool)
    ensures
        r == names_once(s@, key@),
{
    let text = list_entries(s);
    match Json::parse(text.as_str()) {
        Some(Json::Array(items)) => {
            let ghost all = items_view(items@);
            proof {
                lemma_items_view(items@);
            }
            let mut times: usize = 0;
            let mut i: usize = 0;
            while i < items.len()
                invariant
                    i <= items@.len(),
                    all.len() == items@.len(),
                    forall|k: int| 0 <= k < items@.len() ==> all[k] == (#[trigger] items@[k])@,
                    times <= i,
                    times == times_named(all.take(i as int), key@),
                decreases items@.len() - i,
            {
                assert(all.take(i + 1).drop_last() == all.take(i as int));
                assert(all.take(i + 1).last() == items@[i as int]@);
                let named = match &items[i] {
                    Json::Text(t) => same_text(t.as_str(), key),
                    _ => false,
                };
                if named && i % 2 == 0 {
                    times += 1;
                }
                i += 1;
            }
            assert(all.take(all.len() as int) == all);
            times == 1
        },
        _ => false,
    }
}

/// Inside a string every character stays, until the quotation mark that no backslash
/// stands before.
pub proof fn law_strings_are_left_alone(s: Seq<char>, c: char)
    requires
        scan(s).quoted,
    ensures
        scan(s.push(c)).text == scan(s).text.push(c),
        scan(s.push(c)).depth == scan(s).depth,
        scan(s.push(c)).quoted <==> (c as int != 34 || scan(s).escaped),
        scan(s.push(c)).escaped <==> (c as int == 92 && !scan(s).escaped),
{
    assert(s.push(c).drop_last() =~= s);
}

/// Outside strings the outermost braces become brackets, the colons right inside them
/// become commas, and all else stays.
pub proof fn law_outer_braces_become_brackets(s: Seq<char>, c: char)
    requires
        !scan(s).quoted,
    ensures
        scan(s.push(c)).quoted <==> c as int == 34,
        !scan(s.push(c)).escaped,
        c as int == 123 || c as int == 91 ==> scan(s.push(c)).depth == scan(s).depth + 1,
        (c as int == 125 || c as int == 93) && scan(s).depth > 0 ==> scan(s.push(c)).depth == scan(
            s,
        ).depth - 1,
        c as int != 123 && c as int != 91 && c as int != 125 && c as int != 93 ==> scan(
            s.push(c),
        ).depth == scan(s).depth,
        scan(s.push(c)).text.drop_last() == scan(s).text,
        scan(s.push(c)).text.len() == scan(s).text.len() + 1,
        scan(s.push(c)).text.last() as int == if c as int == 123 && scan(s).depth == 0 {
            91
        } else if c as int == 125 && scan(s).depth == 1 {
            93
        } else if c as int == 58 && scan(s).depth == 1 {
            44
        } else {
            c as int
        },
{
    assert(s.push(c).drop_last() =~= s);
    assert(scan(s.push(c)).text.drop_last() =~= scan(s).text);
}

/// A key is named once more where it stands in front of a value, and values do not
/// name keys.
pub proof fn law_keys_are_counted(
    items: Seq<JsonView>,
    name: JsonView,
    value: JsonView,
    key: Seq<char>,
)
    requires
        items.len() % 2 == 0,
    ensures
        times_named(items.push(name).push(value), key) == times_named(items, key) + if name
            == JsonView::Text(key) {
            1nat
        } else {
            0nat
        },
        times_named(seq![], key) == 0,
{
    reveal_with_fuel(times_named, 3);
    assert(items.push(name).push(value).drop_last() =~= items.push(name));
    assert(items.push(name).drop_last() =~= items);
}

/// A text is gone through from outside any string and any bracket, and a bracket that
/// closes nothing changes nothing.
pub proof fn law_texts_begin_outside(s: Seq<char>, c: char)
    ensures
        scan(seq![]).depth == 0,
        !scan(seq![]).quoted,
        !scan(seq![]).escaped,
        scan(seq![]).text.len() == 0,
        !scan(s).quoted && scan(s).depth == 0 && (c as int == 125 || c as int == 93) ==> scan(
            s.push(c),
        ).depth == 0 && scan(s.push(c)).text == scan(s).text.push(c),
{
    assert(s.push(c).drop_last() =~= s);
}

/// A key stands once in the text of an object where it stands once among the keys of
/// the list that the text becomes.
pub proof fn law_keys_stand_once(s: Seq<char>, key: Seq<char>)
    ensures
        match read_tree(scan(s).text) {
            Some(JsonView::Array(items)) => names_once(s, key) <==> times_named(items, key) == 1,
            _ => !names_once(s, key),
        },
{
}

} // verus!
