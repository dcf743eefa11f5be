//! JSON values: the tree that the wiki's front matter, the tool's parameters
//! and the messages of the model service are made of.

use vstd::prelude::*;

use crate::numerals::{decimal, decimal_int, write_i64, write_u64};
use crate::text::{same_text, texts};

verus! {

/// What a JSON number is.
#[verifier::ext_equal]
pub enum NumberView {
    /// An integer that is not negative.
    Unsigned(u64),
    /// A negative integer.
    Negative(i64),
    /// Any other number, by its canonical text.
    Decimal(Seq<char>),
}

/// What a JSON value is. An object maps each of its keys to a value; the order
/// in which the keys were written carries no meaning.
#[verifier::ext_equal]
pub enum JsonView {
    Null,
    Bool(bool),
    Number(NumberView),
    Text(Seq<char>),
    Array(Seq<JsonView>),
    Object(Map<Seq<char>, JsonView>),
}

/// A JSON number.
#[derive(Debug, PartialEq)]
pub enum JsonNumber {
    /// An integer that is not negative.
    Unsigned(u64),
    /// A negative integer.
    Negative(i64),
    /// Any other number, by its canonical text.
    Decimal(String),
}

/// A JSON value.
#[derive(Debug, PartialEq)]
pub enum Json {
    Null,
    Bool(bool),
    Number(JsonNumber),
    Text(String),
    Array(Vec<Json>),
    Object(Vec<(String, Json)>),
}

impl View for JsonNumber {
    type V = NumberView;

    open spec fn view(&self) -> NumberView {
        match self {
            JsonNumber::Unsigned(n) => NumberView::Unsigned(*n),
            JsonNumber::Negative(n) => NumberView::Negative(*n),
            JsonNumber::Decimal(s) => NumberView::Decimal(s@),
        }
    }
}

/// What a value is.
pub open spec fn value_view(v: Json) -> JsonView
    decreases v,
{
    match v {
        Json::Null => JsonView::Null,
        Json::Bool(b) => JsonView::Bool(b),
        Json::Number(n) => JsonView::Number(n@),
        Json::Text(s) => JsonView::Text(s@),
        Json::Array(items) => JsonView::Array(items_view(items@)),
        Json::Object(entries) => JsonView::Object(entries_view(entries@)),
    }
}

/// What a list of values is.
pub open spec fn items_view(s: Seq<Json>) -> Seq<JsonView>
    decreases s,
{
    if s.len() == 0 {
        seq![]
    } else {
        items_view(s.subrange(0, s.len() - 1)).push(value_view(s[s.len() - 1]))
    }
}

/// What a list of entries maps its keys to: the last entry of a key counts.
pub open spec fn entries_view(s: Seq<(String, Json)>) -> Map<Seq<char>, JsonView>
    decreases s,
{
    if s.len() == 0 {
        Map::empty()
    } else {
        entries_view(s.subrange(0, s.len() - 1)).insert(
            s[s.len() - 1].0@,
            value_view(s[s.len() - 1].1),
        )
    }
}

impl View for Json {
    type V = JsonView;

    open spec fn view(&self) -> JsonView {
        value_view(*self)
    }
}

/// The text of a number as it stands in a JSON document.
pub open spec fn number_text(n: NumberView) -> Seq<char> {
    match n {
        NumberView::Unsigned(v) => decimal(v as nat),
        NumberView::Negative(v) => decimal_int(v as int),
        NumberView::Decimal(s) => s,
    }
}

/// The number for the integer `v`.
pub open spec fn int_number(v: int) -> NumberView
    recommends
        i64::MIN <= v <= u64::MAX,
{
    if v < 0 {
        NumberView::Negative(v as i64)
    } else {
        NumberView::Unsigned(v as u64)
    }
}

impl JsonView {
    /// The value of `key`, where this is an object that has it.
    pub open spec fn get(self, key: Seq<char>) -> Option<JsonView> {
        match self {
            JsonView::Object(m) => if m.dom().contains(key) {
                Some(m[key])
            } else {
                None
            },
            _ => None,
        }
    }

    /// The text, where this is one.
    pub open spec fn as_str(self) -> Option<Seq<char>> {
        match self {
            JsonView::Text(s) => Some(s),
            _ => None,
        }
    }

    /// The truth value, where this is one.
    pub open spec fn as_bool(self) -> Option<bool> {
        match self {
            JsonView::Bool(b) => Some(b),
            _ => None,
        }
    }

    /// The integer, where this is one that is not negative.
    pub open spec fn as_u64(self) -> Option<u64> {
        match self {
            JsonView::Number(NumberView::Unsigned(n)) => Some(n),
            _ => None,
        }
    }

    /// The text under `key`, where there is one.
    pub open spec fn str_at(self, key: Seq<char>) -> Option<Seq<char>> {
        match self.get(key) {
            Some(v) => v.as_str(),
            None => None,
        }
    }
}

/// A list of values has an item for each of them.
pub proof fn lemma_items_view(s: Seq<Json>)
    ensures
        items_view(s).len() == s.len(),
        forall|i: int| 0 <= i < s.len() ==> items_view(s)[i] == (#[trigger] s[i])@,
    decreases s.len(),
{
    if s.len() > 0 {
        let front = s.subrange(0, s.len() - 1);
        lemma_items_view(front);
        assert forall|i: int| 0 <= i < s.len() implies items_view(s)[i] == (#[trigger] s[i])@ by {
            if i < s.len() - 1 {
                assert(front[i] == s[i]);
            }
        }
    }
}

/// Putting an item behind a list of values.
pub proof fn lemma_items_push(s: Seq<Json>, v: Json)
    ensures
        items_view(s.push(v)) == items_view(s).push(v@),
{
    assert(s.push(v).subrange(0, s.len() as int) =~= s);
}

/// Putting an entry behind a list of entries.
pub proof fn lemma_entries_push(s: Seq<(String, Json)>, e: (String, Json))
    ensures
        entries_view(s.push(e)) == entries_view(s).insert(e.0@, e.1@),
{
    assert(s.push(e).subrange(0, s.len() as int) =~= s);
}

/// A list of texts as values.
pub open spec fn text_values(s: Seq<Seq<char>>) -> JsonView {
    JsonView::Array(s.map_values(|x: Seq<char>| JsonView::Text(x)))
}

/// The keys of a list of entries, and the value of a key whose last entry is known.
pub proof fn lemma_entries_view(s: Seq<(String, Json)>)
    ensures
        entries_view(s).dom().finite(),
        forall|k: Seq<char>|
            entries_view(s).dom().contains(k) <==> exists|i: int|
                0 <= i < s.len() && (#[trigger] s[i]).0@ == k,
    decreases s.len(),
{
    if s.len() > 0 {
        let front = s.subrange(0, s.len() - 1);
        lemma_entries_view(front);
        assert forall|k: Seq<char>|
            entries_view(s).dom().contains(k) <==> exists|i: int|
                0 <= i < s.len() && (#[trigger] s[i]).0@ == k by {
            if exists|i: int| 0 <= i < s.len() && (#[trigger] s[i]).0@ == k {
                let i = choose|i: int| 0 <= i < s.len() && (#[trigger] s[i]).0@ == k;
                if i < s.len() - 1 {
                    assert(front[i].0@ == k);
                }
            }
            if entries_view(s).dom().contains(k) && s[s.len() - 1].0@ != k {
                assert(entries_view(front).dom().contains(k));
                let i = choose|i: int| 0 <= i < front.len() && (#[trigger] front[i]).0@ == k;
                assert(s[i].0@ == k);
            }
            if s[s.len() - 1].0@ == k {
                assert(exists|i: int| 0 <= i < s.len() && (#[trigger] s[i]).0@ == k);
            }
        }
    }
}

/// Entries behind the last one of a key leave that key's value as it is.
pub proof fn lemma_last_entry(s: Seq<(String, Json)>, i: int)
    requires
        0 <= i < s.len(),
        forall|j: int| i < j < s.len() ==> (#[trigger] s[j]).0@ != s[i].0@,
    ensures
        entries_view(s).dom().contains(s[i].0@),
        entries_view(s)[s[i].0@] == s[i].1@,
    decreases s.len(),
{
    if i < s.len() - 1 {
        let front = s.subrange(0, s.len() - 1);
        assert(front[i] == s[i]);
        assert forall|j: int| i < j < front.len() implies (#[trigger] front[j]).0@
            != front[i].0@ by {
            assert(front[j] == s[j]);
        }
        lemma_last_entry(front, i);
        assert(s[s.len() - 1].0@ != s[i].0@);
    }
}

/// Replacing the last entry of a key gives that key a new value.
proof fn lemma_replace_entry(s: Seq<(String, Json)>, i: int, e: (String, Json))
    requires
        0 <= i < s.len(),
        e.0@ == s[i].0@,
        forall|j: int| i < j < s.len() ==> (#[trigger] s[j]).0@ != s[i].0@,
    ensures
        entries_view(s.update(i, e)) == entries_view(s).insert(e.0@, e.1@),
    decreases s.len(),
{
    let front = s.subrange(0, s.len() - 1);
    let t = s.update(i, e);
    if i < s.len() - 1 {
        assert(front[i] == s[i]);
        assert forall|j: int| i < j < front.len() implies (#[trigger] front[j]).0@
            != front[i].0@ by {
            assert(front[j] == s[j]);
        }
        lemma_replace_entry(front, i, e);
        assert(t.subrange(0, t.len() - 1) =~= front.update(i, e));
        assert(s[s.len() - 1].0@ != e.0@);
        assert(entries_view(t) =~= entries_view(s).insert(e.0@, e.1@));
    } else {
        assert(t.subrange(0, t.len() - 1) =~= front);
        assert(entries_view(t) =~= entries_view(s).insert(e.0@, e.1@));
    }
}

/// The position of the last entry of `key`.
fn last_entry(entries: &Vec<(String, Json)>, key: &str) -> (r: Option<usize>)
    ensures
        match r {
            Some(i) => i < entries@.len() && entries@[i as int].0@ == key@ && forall|j: int|
                i < j < entries@.len() ==> (#[trigger] entries@[j]).0@ != key@,
            None => forall|j: int| 0 <= j < entries@.len() ==> (#[trigger] entries@[j]).0@ != key@,
        },
{
    let mut n: usize = entries.len();
    while n > 0
        invariant
            n <= entries@.len(),
            forall|j: int| n <= j < entries@.len() ==> (#[trigger] entries@[j]).0@ != key@,
        decreases n,
    {
        n -= 1;
        if same_text(entries[n].0.as_str(), key) {
            return Some(n);
        }
    }
    None
}

/// The value that a list of entries gives `key`.
pub fn entry<'a>(entries: &'a Vec<(String, Json)>, key: &str) -> (r: Option<&'a Json>)
    ensures
        match r {
            Some(v) => entries_view(entries@).dom().contains(key@) && entries_view(
                entries@,
            )[key@] == v@,
            None => !entries_view(entries@).dom().contains(key@),
        },
{
    proof {
        lemma_entries_view(entries@);
    }
    match last_entry(entries, key) {
        Some(i) => {
            proof {
                lemma_last_entry(entries@, i as int);
            }
            Some(&entries[i].1)
        },
        None => None,
    }
}

/// Gives `key` the value `v`, in place of the one that it had.
pub fn set_entry(entries: &mut Vec<(String, Json)>, key: String, v: Json)
    ensures
        entries_view(final(entries)@) == entries_view(old(entries)@).insert(key@, v@),
{
    match last_entry(entries, key.as_str()) {
        Some(i) => {
            proof {
                lemma_replace_entry(entries@, i as int, (key, v));
            }
            entries.set(i, (key, v));
        },
        None => {
            proof {
                lemma_entries_push(entries@, (key, v));
            }
            entries.push((key, v));
        },
    }
}

/// Gives `key` the value `v`, in place of the one that it had.
pub fn put(entries: &mut Vec<(String, Json)>, key: &str, v: Json)
    ensures
        entries_view(final(entries)@) == entries_view(old(entries)@).insert(key@, v@),
{
    set_entry(entries, key.to_owned(), v);
}

/// A list of texts as a value.
pub fn texts_to_json(v: &Vec<String>) -> (r: Json)
    ensures
        r@ == text_values(texts(v@)),
{
    let ghost all = texts(v@).map_values(|x: Seq<char>| JsonView::Text(x));
    let mut out: Vec<Json> = Vec::new();
    let mut i: usize = 0;
    assert(items_view(out@) =~= all.take(0));
    while i < v.len()
        invariant
            i <= v@.len(),
            all == texts(v@).map_values(|x: Seq<char>| JsonView::Text(x)),
            items_view(out@) == all.take(i as int),
        decreases v@.len() - i,
    {
        let item = Json::text(v[i].as_str());
        proof {
            lemma_items_push(out@, item);
            assert(all[i as int] == item@);
            assert(all.take(i as int).push(item@) =~= all.take(i + 1));
        }
        out.push(item);
        i += 1;
    }
    assert(all.take(all.len() as int) =~= all);
    Json::Array(out)
}

impl Json {
    /// The value of `key`, where this is an object that has it.
    pub fn get(&self, key: &str) -> (r: Option<&Json>)
        ensures
            match r {
                Some(v) => self@.get(key@) == Some(v@),
                None => self@.get(key@) is None,
            },
    {
        match self {
            Json::Object(entries) => entry(entries, key),
            _ => None,
        }
    }

    /// The text, where this is one.
    pub fn as_str(&self) -> (r: Option<&str>)
        ensures
            match r {
                Some(s) => self@.as_str() == Some(s@),
                None => self@.as_str() is None,
            },
    {
        match self {
            Json::Text(s) => Some(s.as_str()),
            _ => None,
        }
    }

    /// The truth value, where this is one.
    pub fn as_bool(&self) -> (r: Option<bool>)
        ensures
            r == self@.as_bool(),
    {
        match self {
            Json::Bool(b) => Some(*b),
            _ => None,
        }
    }

    /// The integer, where this is one that is not negative.
    pub fn as_u64(&self) -> (r: Option<u64>)
        ensures
            r == self@.as_u64(),
    {
        match self {
            Json::Number(JsonNumber::Unsigned(n)) => Some(*n),
            _ => None,
        }
    }

    /// The text under `key`, where there is one.
    pub fn str_at(&self, key: &str) -> (r: Option<&str>)
        ensures
            match r {
                Some(s) => self@.str_at(key@) == Some(s@),
                None => self@.str_at(key@) is None,
            },
    {
        match self.get(key) {
            Some(v) => v.as_str(),
            None => None,
        }
    }

    /// The number for the integer `n`.
    pub fn from_i64(n: i64) -> (r: Json)
        ensures
            r@ == JsonView::Number(int_number(n as int)),
    {
        if n < 0 {
            Json::Number(JsonNumber::Negative(n))
        } else {
            Json::Number(JsonNumber::Unsigned(n as u64))
        }
    }

    /// The number for the integer `n`.
    pub fn from_u64(n: u64) -> (r: Json)
        ensures
            r@ == JsonView::Number(int_number(n as int)),
    {
        Json::Number(JsonNumber::Unsigned(n))
    }

    /// The text value that spells `s`.
    pub fn text(s: &str) -> (r: Json)
        ensures
            r@ == JsonView::Text(s@),
    {
        Json::Text(s.to_owned())
    }

    /// A copy of the value.
    pub fn copy(&self) -> (r: Json)
        ensures
            r@ == self@,
        decreases self,
    {
        match self {
            Json::Null => Json::Null,
            Json::Bool(b) => Json::Bool(*b),
            Json::Number(n) => Json::Number(n.copy()),
            Json::Text(s) => Json::Text(s.clone()),
            Json::Array(items) => {
                let mut out: Vec<Json> = Vec::new();
                let mut i: usize = 0;
                assert(items@.take(0) =~= Seq::<Json>::empty());
                while i < items.len()
                    invariant
                        i <= items@.len(),
                        *self == Json::Array(*items),
                        items_view(out@) == items_view(items@.take(i as int)),
                    decreases items@.len() - i,
                {
                    assert(decreases_to!(self => self->Array_0));
                    assert(decreases_to!(self->Array_0 => items@));
                    assert(decreases_to!(items@ => items@[i as int]));
                    let v = items[i].copy();
                    proof {
                        lemma_items_push(out@, v);
                        lemma_items_push(items@.take(i as int), items@[i as int]);
                        assert(items@.take(i + 1) =~= items@.take(i as int).push(items@[i as int]));
                    }
                    out.push(v);
                    i += 1;
                }
                assert(items@.take(i as int) =~= items@);
                Json::Array(out)
            },
            Json::Object(entries) => {
                let mut out: Vec<(String, Json)> = Vec::new();
                let mut i: usize = 0;
                assert(entries@.take(0) =~= Seq::<(String, Json)>::empty());
                while i < entries.len()
                    invariant
                        i <= entries@.len(),
                        *self == Json::Object(*entries),
                        entries_view(out@) == entries_view(entries@.take(i as int)),
                    decreases entries@.len() - i,
                {
                    assert(decreases_to!(self => self->Object_0));
                    assert(decreases_to!(self->Object_0 => entries@));
                    assert(decreases_to!(entries@ => entries@[i as int]));
                    assert(decreases_to!(entries@[i as int] => entries@[i as int].1));
                    let v = entries[i].1.copy();
                    let k = entries[i].0.clone();
                    proof {
                        lemma_entries_push(out@, (k, v));
                        lemma_entries_push(entries@.take(i as int), entries@[i as int]);
                        assert(entries@.take(i + 1) =~= entries@.take(i as int).push(
                            entries@[i as int],
                        ));
                    }
                    out.push((k, v));
                    i += 1;
                }
                assert(entries@.take(i as int) =~= entries@);
                Json::Object(out)
            },
        }
    }
}

impl Clone for Json {
    fn clone(&self) -> (r: Json)
        ensures
            r@ == self@,
    {
        self.copy()
    }
}

impl JsonNumber {
    /// A copy of the number.
    pub fn copy(&self) -> (r: JsonNumber)
        ensures
            r@ == self@,
    {
        match self {
            JsonNumber::Unsigned(n) => JsonNumber::Unsigned(*n),
            JsonNumber::Negative(n) => JsonNumber::Negative(*n),
            JsonNumber::Decimal(s) => JsonNumber::Decimal(s.clone()),
        }
    }

    /// The text of the number as it stands in a JSON document.
    pub fn write(&self) -> (r: String)
        ensures
            r@ == number_text(self@),
    {
        match self {
            JsonNumber::Unsigned(n) => write_u64(*n),
            JsonNumber::Negative(n) => write_i64(*n),
            JsonNumber::Decimal(s) => s.clone(),
        }
    }
}

/// What is found in a value.
pub proof fn law_values_are_found(m: Map<Seq<char>, JsonView>, key: Seq<char>, v: JsonView)
    ensures
        JsonView::Object(m.insert(key, v)).get(key) == Some(v),
        m.dom().contains(key) ==> JsonView::Object(m).get(key) == Some(m[key]),
        !m.dom().contains(key) ==> JsonView::Object(m).get(key) is None,
        !(v is Object) ==> v.get(key) is None,
        v matches JsonView::Text(s) ==> JsonView::Object(m.insert(key, v)).str_at(key) == Some(s),
        !(v is Text) ==> JsonView::Object(m.insert(key, v)).str_at(key) is None,
        v.as_str() is Some <==> v is Text,
        v matches JsonView::Text(s) ==> v.as_str() == Some(s),
        v.as_bool() is Some <==> v is Bool,
        v matches JsonView::Bool(b) ==> v.as_bool() == Some(b),
        v.as_u64() matches Some(n) ==> v == JsonView::Number(NumberView::Unsigned(n)),
        v matches JsonView::Number(NumberView::Unsigned(n)) ==> v.as_u64() == Some(n),
{
}

/// A list of texts as values has a text for each.
pub proof fn law_texts_are_values(s: Seq<Seq<char>>, i: int)
    ensures
        text_values(s) matches JsonView::Array(v) && v.len() == s.len() && (0 <= i < s.len()
            ==> v[i] == JsonView::Text(s[i])),
{
}

/// A number has one form, by its sign.
pub proof fn law_numbers_have_one_form(v: int)
    requires
        i64::MIN <= v <= u64::MAX,
    ensures
        v >= 0 ==> (int_number(v) matches NumberView::Unsigned(n) && n == v),
        v < 0 ==> (int_number(v) matches NumberView::Negative(n) && n == v),
{
}

} // verus!
