//! JSON values as text. The reading and the writing are serde_json's; here its
//! values are taken apart into the crate's own and put together again.

use vstd::prelude::*;

use crate::json::{entries_view, int_number, items_view};
use crate::json::{lemma_entries_push, lemma_entries_view, lemma_items_push};
use crate::json::{Json, JsonNumber, JsonView, NumberView};

verus! {

/// A JSON value of serde_json.
#[verifier::external_type_specification]
#[verifier::external_body]
pub struct ExValue(serde_json::Value);

/// Why serde_json refused a text.
#[verifier::external_type_specification]
#[verifier::external_body]
pub struct ExJsonError(serde_json::Error);

/// The tree of values that a value of serde_json holds.
pub uninterp spec fn tree(v: serde_json::Value) -> JsonView;

/// The message of an error of serde_json.
pub uninterp spec fn fault_text(e: serde_json::Error) -> Seq<char>;

/// What `serde_json::from_str` makes of a text: the tree that it reads, or the
/// message of the error by which it refuses the text.
pub uninterp spec fn parsed(s: Seq<char>) -> Result<JsonView, Seq<char>>;

/// The tree that a text spells; `None` where it spells none.
pub open spec fn read_tree(s: Seq<char>) -> Option<JsonView> {
    match parsed(s) {
        Ok(v) => Some(v),
        Err(_) => None,
    }
}

/// The compact text that serde_json writes for a tree.
pub uninterp spec fn written_tree(v: JsonView) -> Seq<char>;

/// `serde_json::from_str` into its own value type: the tree that it reads is a
/// function of the text, and so is the message of the error where it reads none.
#[verifier::external_body]
fn value_from_text(s: &str) -> (r: Result<serde_json::Value, serde_json::Error>)
    ensures
        match r {
            Ok(v) => parsed(s@) == Ok::<JsonView, Seq<char>>(tree(v)),
            Err(e) => parsed(s@) == Err::<JsonView, Seq<char>>(fault_text(e)),
        },
{
    serde_json::from_str(s)
}

/// `serde_json::Value::to_string`: the text is a function of the tree.
#[verifier::external_body]
fn value_to_text(v: &serde_json::Value) -> (r: String)
    ensures
        r@ == written_tree(tree(*v)),
{
    v.to_string()
}

/// One layer of a value of serde_json.
enum Layer {
    Null,
    Bool(bool),
    Number(JsonNumber),
    Text(String),
    Array(Vec<serde_json::Value>),
    Object(Vec<(String, serde_json::Value)>),
}

/// The trees of a list of values.
spec fn trees(s: Seq<serde_json::Value>) -> Seq<JsonView> {
    s.map_values(|v: serde_json::Value| tree(v))
}

/// What a list of entries maps its keys to.
spec fn tree_map(s: Seq<(String, serde_json::Value)>) -> Map<Seq<char>, JsonView>
    decreases s.len(),
{
    if s.len() == 0 {
        Map::empty()
    } else {
        tree_map(s.drop_last()).insert(s.last().0@, tree(s.last().1))
    }
}

/// The tree whose top is this layer.
spec fn layer_tree(l: Layer) -> JsonView {
    match l {
        Layer::Null => JsonView::Null,
        Layer::Bool(b) => JsonView::Bool(b),
        Layer::Number(n) => JsonView::Number(n@),
        Layer::Text(s) => JsonView::Text(s@),
        Layer::Array(items) => JsonView::Array(trees(items@)),
        Layer::Object(entries) => JsonView::Object(tree_map(entries@)),
    }
}

/// Whether no key stands twice in a list of entries.
spec fn distinct_keys(s: Seq<(String, serde_json::Value)>) -> bool {
    forall|i: int, j: int| 0 <= i < j < s.len() ==> (#[trigger] s[i]).0@ != (#[trigger] s[j]).0@
}

/// The variants of `serde_json::Value`, told apart one by one. An object holds
/// a key at most once.
#[verifier::external_body]
fn take_apart(v: serde_json::Value) -> (r: Layer)
    ensures
        layer_tree(r) == tree(v),
        r matches Layer::Object(entries) ==> distinct_keys(entries@),
{
    match v {
        serde_json::Value::Null => Layer::Null,
        serde_json::Value::Bool(b) => Layer::Bool(b),
        serde_json::Value::Number(n) => Layer::Number(match (n.as_u64(), n.as_i64()) {
            (Some(u), _) => JsonNumber::Unsigned(u),
            (None, Some(i)) => JsonNumber::Negative(i),
            (None, None) => JsonNumber::Decimal(n.to_string()),
        }),
        serde_json::Value::String(s) => Layer::Text(s),
        serde_json::Value::Array(items) => Layer::Array(items),
        serde_json::Value::Object(m) => Layer::Object(m.into_iter().collect()),
    }
}

/// The variants of `serde_json::Value`, built one by one. Of the entries of one
/// key an object keeps the last.
#[verifier::external_body]
fn put_together(l: Layer) -> (r: serde_json::Value)
    requires
        !(l matches Layer::Number(JsonNumber::Decimal(_))),
        l matches Layer::Number(JsonNumber::Negative(n)) ==> n < 0,
    ensures
        tree(r) == layer_tree(l),
{
    match l {
        Layer::Null => serde_json::Value::Null,
        Layer::Bool(b) => serde_json::Value::Bool(b),
        Layer::Number(JsonNumber::Unsigned(n)) => serde_json::Value::Number(n.into()),
        Layer::Number(JsonNumber::Negative(n)) => serde_json::Value::Number(n.into()),
        Layer::Number(JsonNumber::Decimal(_)) => serde_json::Value::Null,
        Layer::Text(s) => serde_json::Value::String(s),
        Layer::Array(items) => serde_json::Value::Array(items),
        Layer::Object(entries) => serde_json::Value::Object(entries.into_iter().collect()),
    }
}

proof fn lemma_tree_map(s: Seq<(String, serde_json::Value)>)
    requires
        distinct_keys(s),
    ensures
        tree_map(s).dom().finite(),
        forall|i: int|
            0 <= i < s.len() ==> tree_map(s).dom().contains((#[trigger] s[i]).0@) && tree_map(
                s,
            )[s[i].0@] == tree(s[i].1),
    decreases s.len(),
{
    if s.len() > 0 {
        let front = s.drop_last();
        assert forall|i: int, j: int| 0 <= i < j < front.len() implies (#[trigger] front[i]).0@ != (
        #[trigger] front[j]).0@ by {
            assert(s[i].0@ != s[j].0@);
        }
        lemma_tree_map(front);
        assert forall|i: int| 0 <= i < s.len() implies tree_map(s).dom().contains(
            (#[trigger] s[i]).0@,
        ) && tree_map(s)[s[i].0@] == tree(s[i].1) by {
            if i < s.len() - 1 {
                assert(front[i] == s[i]);
                assert(s[i].0@ != s[s.len() - 1].0@);
            }
        }
    }
}

/// The crate's own value for a value of serde_json.
fn from_value(v: serde_json::Value) -> (r: Json)
    ensures
        r@ == tree(v),
    decreases tree(v),
{
    let ghost top = tree(v);
    match take_apart(v) {
        Layer::Null => Json::Null,
        Layer::Bool(b) => Json::Bool(b),
        Layer::Number(n) => Json::Number(n),
        Layer::Text(s) => Json::Text(s),
        Layer::Array(items) => {
            let ghost all = items@;
            let mut out: Vec<Json> = Vec::new();
            assert(trees(all.take(0)) =~= Seq::<JsonView>::empty());
            for item in it: items
                invariant
                    it.seq() == all,
                    top == tree(v),
                    top == JsonView::Array(trees(all)),
                    items_view(out@) == trees(all.take(it.index() as int)),
            {
                let ghost i = it.index() as int;
                assert(item == all[i]);
                assert(decreases_to!(top => top->Array_0));
                assert(top->Array_0[i] == tree(item));
                assert(decreases_to!(top->Array_0 => top->Array_0[i]));
                let j = from_value(item);
                proof {
                    lemma_items_push(out@, j);
                    assert(trees(all.take(i + 1)) =~= trees(all.take(i)).push(tree(item)));
                }
                out.push(j);
            }
            assert(all.take(all.len() as int) == all);
            Json::Array(out)
        },
        Layer::Object(entries) => {
            let ghost all = entries@;
            let mut out: Vec<(String, Json)> = Vec::new();
            assert(tree_map(all.take(0)) =~= Map::<Seq<char>, JsonView>::empty());
            proof {
                lemma_tree_map(all);
            }
            for e in it: entries
                invariant
                    it.seq() == all,
                    top == tree(v),
                    top == JsonView::Object(tree_map(all)),
                    tree_map(all).dom().finite(),
                    forall|k: int|
                        0 <= k < all.len() ==> tree_map(all).dom().contains((#[trigger] all[k]).0@)
                            && tree_map(all)[all[k].0@] == tree(all[k].1),
                    entries_view(out@) == tree_map(all.take(it.index() as int)),
            {
                let ghost i = it.index() as int;
                assert(e == all[i]);
                assert(decreases_to!(top => top->Object_0));
                assert(top->Object_0[all[i].0@] == tree(e.1));
                assert(decreases_to!(top->Object_0 => top->Object_0[all[i].0@]));
                let (key, item) = e;
                let j = from_value(item);
                proof {
                    lemma_entries_push(out@, (key, j));
                    assert(all.take(i + 1).drop_last() == all.take(i));
                }
                out.push((key, j));
            }
            assert(all.take(all.len() as int) == all);
            Json::Object(out)
        },
    }
}

/// What serde_json is handed for a tree: a number that is given by its text is
/// the one that it reads from that text, and no value where it reads none.
pub open spec fn handed_tree(v: JsonView) -> JsonView
    decreases v,
{
    match v {
        JsonView::Number(NumberView::Negative(n)) => JsonView::Number(int_number(n as int)),
        JsonView::Number(NumberView::Decimal(s)) => match read_tree(s) {
            Some(t) => t,
            None => JsonView::Null,
        },
        JsonView::Array(items) => JsonView::Array(handed_items(items)),
        JsonView::Object(m) => JsonView::Object(
            Map::new(
                |k: Seq<char>| m.dom().contains(k),
                |k: Seq<char>|
                    if m.dom().finite() && m.dom().contains(k) {
                        handed_tree(m[k])
                    } else {
                        JsonView::Null
                    },
            ),
        ),
        _ => v,
    }
}

/// What serde_json is handed for a list of trees.
pub open spec fn handed_items(s: Seq<JsonView>) -> Seq<JsonView>
    decreases s,
{
    if s.len() == 0 {
        seq![]
    } else {
        handed_items(s.subrange(0, s.len() - 1)).push(handed_tree(s[s.len() - 1]))
    }
}

/// The text of a value.
pub open spec fn written(v: JsonView) -> Seq<char> {
    written_tree(handed_tree(v))
}

proof fn lemma_handed_insert(m: Map<Seq<char>, JsonView>, k: Seq<char>, v: JsonView)
    requires
        m.dom().finite(),
    ensures
        handed_tree(JsonView::Object(m.insert(k, v))) == JsonView::Object(
            handed_tree(JsonView::Object(m))->Object_0.insert(k, handed_tree(v)),
        ),
{
    let a = handed_tree(JsonView::Object(m.insert(k, v)))->Object_0;
    let b = handed_tree(JsonView::Object(m))->Object_0.insert(k, handed_tree(v));
    assert(a =~= b);
}

/// The value of serde_json for the crate's own.
fn to_value(v: &Json) -> (r: serde_json::Value)
    ensures
        tree(r) == handed_tree(v@),
    decreases v,
{
    match v {
        Json::Null => put_together(Layer::Null),
        Json::Bool(b) => put_together(Layer::Bool(*b)),
        Json::Number(JsonNumber::Unsigned(n)) => put_together(
            Layer::Number(JsonNumber::Unsigned(*n)),
        ),
        Json::Number(JsonNumber::Negative(n)) => if *n < 0 {
            put_together(Layer::Number(JsonNumber::Negative(*n)))
        } else {
            put_together(Layer::Number(JsonNumber::Unsigned(*n as u64)))
        },
        Json::Number(JsonNumber::Decimal(s)) => match value_from_text(s.as_str()) {
            Ok(t) => t,
            Err(_) => put_together(Layer::Null),
        },
        Json::Text(s) => put_together(Layer::Text(s.clone())),
        Json::Array(items) => {
            let mut out: Vec<serde_json::Value> = Vec::new();
            let mut i: usize = 0;
            assert(items@.take(0) =~= Seq::<Json>::empty());
            assert(trees(out@) =~= Seq::<JsonView>::empty());
            while i < items.len()
                invariant
                    i <= items@.len(),
                    *v == Json::Array(*items),
                    trees(out@) == handed_items(items_view(items@.take(i as int))),
                decreases items@.len() - i,
            {
                assert(decreases_to!(v => v->Array_0));
                assert(decreases_to!(v->Array_0 => items@));
                assert(decreases_to!(items@ => items@[i as int]));
                let ghost before = out@;
                let item = to_value(&items[i]);
                out.push(item);
                proof {
                    let done = items@.take(i as int);
                    assert(items@.take(i + 1) =~= done.push(items@[i as int]));
                    lemma_items_push(done, items@[i as int]);
                    let grown = items_view(done).push(items@[i as int]@);
                    assert(grown.subrange(0, grown.len() - 1) =~= items_view(done));
                    assert(trees(out@) =~= trees(before).push(tree(item)));
                }
                i += 1;
            }
            assert(items@.take(i as int) =~= items@);
            put_together(Layer::Array(out))
        },
        Json::Object(entries) => {
            let mut out: Vec<(String, serde_json::Value)> = Vec::new();
            let mut i: usize = 0;
            assert(entries@.take(0) =~= Seq::<(String, Json)>::empty());
            assert(handed_tree(JsonView::Object(Map::empty()))->Object_0 =~= tree_map(out@));
            while i < entries.len()
                invariant
                    i <= entries@.len(),
                    *v == Json::Object(*entries),
                    tree_map(out@) == handed_tree(
                        JsonView::Object(entries_view(entries@.take(i as int))),
                    )->Object_0,
                decreases entries@.len() - i,
            {
                assert(decreases_to!(v => v->Object_0));
                assert(decreases_to!(v->Object_0 => entries@));
                assert(decreases_to!(entries@ => entries@[i as int]));
                assert(decreases_to!(entries@[i as int] => entries@[i as int].1));
                let ghost before = out@;
                let item = to_value(&entries[i].1);
                let key = entries[i].0.clone();
                out.push((key, item));
                proof {
                    let done = entries@.take(i as int);
                    assert(entries@.take(i + 1) =~= done.push(entries@[i as int]));
                    lemma_entries_push(done, entries@[i as int]);
                    lemma_entries_view(done);
                    lemma_handed_insert(entries_view(done), key@, entries@[i as int].1@);
                    assert(out@.drop_last() =~= before);
                }
                i += 1;
            }
            assert(entries@.take(i as int) =~= entries@);
            put_together(Layer::Object(out))
        },
    }
}

impl Json {
    /// The value that a JSON text stands for.
    pub fn parse(s: &str) -> (r: Option<Json>)
        ensures
            match r {
                Some(v) => read_tree(s@) == Some(v@),
                None => read_tree(s@) is None,
            },
    {
        match value_from_text(s) {
            Ok(v) => Some(from_value(v)),
            Err(_) => None,
        }
    }

    /// The value that a JSON text stands for, or why it stands for none.
    pub fn read(s: &str) -> (r: Result<Json, serde_json::Error>)
        ensures
            match r {
                Ok(v) => parsed(s@) == Ok::<JsonView, Seq<char>>(v@),
                Err(e) => parsed(s@) == Err::<JsonView, Seq<char>>(fault_text(e)),
            },
    {
        match value_from_text(s) {
            Ok(v) => Ok(from_value(v)),
            Err(e) => Err(e),
        }
    }

    /// The value as compact JSON text.
    pub fn write(&self) -> (r: String)
        ensures
            r@ == written(self@),
    {
        value_to_text(&to_value(self))
    }
}

/// What is handed over for writing is the value itself: texts, truth values and
/// integers stay, lists and objects have each of their values handed over in place.
pub proof fn law_values_are_handed_over(
    v: JsonView,
    a: Seq<JsonView>,
    b: Seq<JsonView>,
    m: Map<Seq<char>, JsonView>,
    k: Seq<char>,
)
    requires
        m.dom().finite(),
    ensures
        v is Null || v is Bool || v is Text ==> handed_tree(v) == v,
        v matches JsonView::Number(NumberView::Unsigned(_)) ==> handed_tree(v) == v,
        v matches JsonView::Number(NumberView::Negative(n)) ==> (n < 0 ==> handed_tree(v) == v),
        handed_tree(JsonView::Array(a)) == JsonView::Array(handed_items(a)),
        handed_items(a + b) == handed_items(a) + handed_items(b),
        handed_items(seq![v]) == seq![handed_tree(v)],
        handed_tree(JsonView::Object(m)) is Object,
        handed_tree(JsonView::Object(m))->Object_0.dom() == m.dom(),
        m.dom().contains(k) ==> handed_tree(JsonView::Object(m))->Object_0[k] == handed_tree(m[k]),
        written(v) == written_tree(handed_tree(v)),
    decreases b.len(),
{
    let none = Seq::<JsonView>::empty();
    assert(handed_items(none) =~= none);
    assert(seq![v].subrange(0, 0) =~= none);
    assert(handed_items(seq![v]) =~= seq![handed_tree(v)]);
    assert(handed_tree(JsonView::Object(m))->Object_0.dom() =~= m.dom());
    if b.len() == 0 {
        assert(a + b =~= a);
        assert(handed_items(a) + handed_items(b) =~= handed_items(a));
    } else {
        let front = b.subrange(0, b.len() - 1);
        assert((a + b).subrange(0, (a + b).len() - 1) =~= a + front);
        law_values_are_handed_over(v, a, front, m, k);
        assert(handed_items(a + b) =~= handed_items(a) + handed_items(b));
    }
}

/// A text stands for the value that is read from it, or for none.
pub proof fn law_texts_stand_for_what_is_read(s: Seq<char>)
    ensures
        parsed(s) matches Ok(v) ==> read_tree(s) == Some(v),
        parsed(s) is Err ==> read_tree(s) is None,
{
}

} // verus!
