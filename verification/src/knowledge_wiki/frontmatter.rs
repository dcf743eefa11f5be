//! The front matter of a document: the block of fields between two `---` lines
//! at its head, written in a small part of YAML.

use vstd::prelude::*;
use vstd::string::StrSliceExecFns;

use crate::json::{entries_view, entry, int_number, items_view, set_entry};
use crate::json::{lemma_entries_push, lemma_items_push, number_text};
use crate::json::{Json, JsonView};
use crate::json_text::read_tree;
use crate::numerals::{decimal_int, fraction, int_value_in, law_integers_are_read_back, parse_i32};
use crate::numerals::{parse_i64, read_fraction, Fraction, FractionView};
use crate::text::{alike, begins_with, between, chars_of, line_list, pieces, position};
use crate::text::{find, inside, lines, same_ignoring_ascii_case, spelled, split, split_once};
use crate::text::{split_at_char, starts_with, string_of, strip_leading_text, texts, trim};
use crate::text::{contains_text, lemma_find_is_contains, occurs_at, trim_start, trimmed, trimmed_start, without_leading_text};
use crate::numerals::{decimal, int_value, is_digit};
use crate::text::{ascii_lower, is_space, law_cutting_at_a_character, law_finding, law_splitting_once, law_trimming};
use crate::text::lemma_trim_front;

verus! {

/// The fields of a document's front matter.
#[derive(Debug, PartialEq)]
pub struct FrontMatter {
    pub fields: Vec<(String, Json)>,
}

impl View for FrontMatter {
    type V = Map<Seq<char>, JsonView>;

    open spec fn view(&self) -> Map<Seq<char>, JsonView> {
        entries_view(self.fields@)
    }
}

impl Default for FrontMatter {
    fn default() -> (r: FrontMatter)
        ensures
            r@ == Map::<Seq<char>, JsonView>::empty(),
    {
        FrontMatter { fields: Vec::new() }
    }
}

/// A text without the double quotes and then without the single quotes that
/// enclose it.
pub open spec fn unquoted(s: Seq<char>) -> Seq<char> {
    let d = match inside(s, '"') {
        Some(t) => t,
        None => s,
    };
    match inside(d, '\'') {
        Some(t) => t,
        None => d,
    }
}

/// The value that a scalar stands for: a truth value, an integer, a decimal
/// fraction (no value where it is not finite), or else a text.
pub open spec fn scalar_of(raw: Seq<char>) -> JsonView {
    let t = trim(raw);
    if same_ignoring_ascii_case(t, "true"@) {
        JsonView::Bool(true)
    } else if same_ignoring_ascii_case(t, "false"@) {
        JsonView::Bool(false)
    } else {
        match int_value_in(t, i64::MIN as int, i64::MAX as int) {
            Some(n) => JsonView::Number(int_number(n)),
            None => match fraction(t) {
                FractionView::NotFinite => JsonView::Null,
                FractionView::Spelled(s) => match read_tree(s) {
                    Some(v) => v,
                    None => JsonView::Null,
                },
                FractionView::NotANumber => JsonView::Text(unquoted(t)),
            },
        }
    }
}

/// The lines that a field cannot begin on: blank ones, comments, indented ones.
pub open spec fn is_passed_over(line: Seq<char>) -> bool {
    ||| trim(line).len() == 0
    ||| starts_with(trim_start(line), "#"@)
    ||| starts_with(line, " "@)
}

/// The fields of an object in a list, from line `i` on: the deeper indented
/// lines, each a key and a scalar. Gives also the line behind them.
pub open spec fn object_fields(
    ls: Seq<Seq<char>>,
    i: int,
    acc: Map<Seq<char>, JsonView>,
) -> (Map<Seq<char>, JsonView>, int)
    decreases ls.len() - i,
{
    if 0 <= i < ls.len() && starts_with(ls[i], "    "@) {
        match split_once(trim(ls[i]), ':') {
            Some(kv) => object_fields(ls, i + 1, acc.insert(trim(kv.0), scalar_of(trim(kv.1)))),
            None => object_fields(ls, i + 1, acc),
        }
    } else {
        (acc, i)
    }
}

/// The lines of an object do not run backwards, nor past the last line.
pub proof fn lemma_object_end(ls: Seq<Seq<char>>, i: int, acc: Map<Seq<char>, JsonView>)
    requires
        0 <= i <= ls.len(),
    ensures
        i <= object_fields(ls, i, acc).1 <= ls.len(),
    decreases ls.len() - i,
{
    if i < ls.len() && starts_with(ls[i], "    "@) {
        match split_once(trim(ls[i]), ':') {
            Some(kv) => lemma_object_end(
                ls,
                i + 1,
                acc.insert(trim(kv.0), scalar_of(trim(kv.1))),
            ),
            None => lemma_object_end(ls, i + 1, acc),
        }
    }
}

/// The items of a list, from line `i` on: each line with a dash is an object,
/// where it holds a key, or else a scalar. Gives also the line behind them.
pub open spec fn list_items(ls: Seq<Seq<char>>, i: int, acc: Seq<JsonView>) -> (Seq<JsonView>, int)
    decreases ls.len() - i,
{
    if 0 <= i < ls.len() && starts_with(ls[i], "  - "@) {
        let raw = trim(strip_leading_text(ls[i], "  - "@));
        if raw.len() == 0 {
            list_items(ls, i + 1, acc)
        } else {
            match split_once(raw, ':') {
                Some(kv) => {
                    let first = Map::<Seq<char>, JsonView>::empty().insert(
                        trim(kv.0),
                        scalar_of(trim(kv.1)),
                    );
                    let (object, next) = object_fields(ls, i + 1, first);
                    proof {
                        lemma_object_end(ls, i + 1, first);
                    }
                    list_items(ls, next, acc.push(JsonView::Object(object)))
                },
                None => list_items(ls, i + 1, acc.push(scalar_of(raw))),
            }
        }
    } else {
        (acc, i)
    }
}

/// The lines of a list do not run backwards, nor past the last line.
pub proof fn lemma_list_end(ls: Seq<Seq<char>>, i: int, acc: Seq<JsonView>)
    requires
        0 <= i <= ls.len(),
    ensures
        i <= list_items(ls, i, acc).1 <= ls.len(),
    decreases ls.len() - i,
{
    if i < ls.len() && starts_with(ls[i], "  - "@) {
        let raw = trim(strip_leading_text(ls[i], "  - "@));
        if raw.len() == 0 {
            lemma_list_end(ls, i + 1, acc);
        } else {
            match split_once(raw, ':') {
                Some(kv) => {
                    let first = Map::<Seq<char>, JsonView>::empty().insert(
                        trim(kv.0),
                        scalar_of(trim(kv.1)),
                    );
                    lemma_object_end(ls, i + 1, first);
                    let (object, next) = object_fields(ls, i + 1, first);
                    lemma_list_end(ls, next, acc.push(JsonView::Object(object)));
                },
                None => lemma_list_end(ls, i + 1, acc.push(scalar_of(raw))),
            }
        }
    }
}

/// The fields that the lines from `i` on add to `acc`: a key with a scalar, or
/// a key alone on its line with the list below it.
pub open spec fn fields_from(
    ls: Seq<Seq<char>>,
    i: int,
    acc: Map<Seq<char>, JsonView>,
) -> Map<Seq<char>, JsonView>
    decreases ls.len() - i,
{
    if 0 <= i < ls.len() {
        if is_passed_over(ls[i]) {
            fields_from(ls, i + 1, acc)
        } else {
            match split_once(ls[i], ':') {
                Some(kv) => if trim(kv.1).len() == 0 {
                    let (items, next) = list_items(ls, i + 1, seq![]);
                    proof {
                        lemma_list_end(ls, i + 1, seq![]);
                    }
                    fields_from(ls, next, acc.insert(trim(kv.0), JsonView::Array(items)))
                } else {
                    fields_from(ls, i + 1, acc.insert(trim(kv.0), scalar_of(trim(kv.1))))
                },
                None => fields_from(ls, i + 1, acc),
            }
        }
    } else {
        acc
    }
}

/// The fields that a block of front matter holds.
pub open spec fn fields_of(block: Seq<char>) -> Map<Seq<char>, JsonView> {
    fields_from(lines(block), 0, Map::empty())
}

/// The block of front matter of a document and the body behind it.
pub open spec fn cut_document(s: Seq<char>) -> Option<(Seq<char>, Seq<char>)> {
    if starts_with(s, "---\n"@) {
        let rest = s.skip("---\n"@.len() as int);
        match find(rest, "\n---\n"@) {
            Some(end) => Some((rest.take(end), rest.skip(end + "\n---\n"@.len()))),
            None => None,
        }
    } else {
        None
    }
}

/// The fields of a document.
pub open spec fn document_fields(s: Seq<char>) -> Map<Seq<char>, JsonView> {
    match cut_document(s) {
        Some(cut) => fields_of(cut.0),
        None => Map::empty(),
    }
}

/// The body of a document: all of it, where it has no front matter.
pub open spec fn document_body(s: Seq<char>) -> Seq<char> {
    match cut_document(s) {
        Some(cut) => cut.1,
        None => s,
    }
}

/// The text of a scalar.
pub open spec fn scalar_text(v: JsonView) -> Option<Seq<char>> {
    match v {
        JsonView::Text(s) => Some(s),
        JsonView::Number(n) => Some(number_text(n)),
        JsonView::Bool(b) => Some(
            if b {
                "true"@
            } else {
                "false"@
            },
        ),
        _ => None,
    }
}

/// The text of the scalar under `key`.
pub open spec fn field_text(m: Map<Seq<char>, JsonView>, key: Seq<char>) -> Option<Seq<char>> {
    if m.dom().contains(key) {
        scalar_text(m[key])
    } else {
        None
    }
}

/// The `i32` that the scalar under `key` spells.
pub open spec fn field_i32(m: Map<Seq<char>, JsonView>, key: Seq<char>) -> Option<int> {
    match field_text(m, key) {
        Some(t) => int_value_in(t, i32::MIN as int, i32::MAX as int),
        None => None,
    }
}

/// The texts of a list without surrounding white space, but for those of which
/// nothing is left.
pub open spec fn words(s: Seq<Seq<char>>) -> Seq<Seq<char>>
    decreases s.len(),
{
    if s.len() == 0 {
        seq![]
    } else {
        let w = trim(s.last());
        if w.len() == 0 {
            words(s.drop_last())
        } else {
            words(s.drop_last()).push(w)
        }
    }
}

/// The texts among the values of a list.
pub open spec fn text_items(s: Seq<JsonView>) -> Seq<Seq<char>>
    decreases s.len(),
{
    if s.len() == 0 {
        seq![]
    } else {
        match s.last().as_str() {
            Some(t) => text_items(s.drop_last()).push(t),
            None => text_items(s.drop_last()),
        }
    }
}

/// The list of words under `key`: the texts of a list, or the parts of a text
/// between commas.
pub open spec fn field_words(m: Map<Seq<char>, JsonView>, key: Seq<char>) -> Seq<Seq<char>> {
    if m.dom().contains(key) {
        match m[key] {
            JsonView::Array(items) => words(text_items(items)),
            JsonView::Text(s) => words(split(s, ","@)),
            _ => seq![],
        }
    } else {
        seq![]
    }
}

/// The value that a scalar stands for.
pub fn scalar_value(raw: &[char]) -> (r: Json)
    ensures
        r@ == scalar_of(raw@),
{
    let t = trimmed(raw);
    if alike(t, "true") {
        return Json::Bool(true);
    }
    if alike(t, "false") {
        return Json::Bool(false);
    }
    if let Some(n) = parse_i64(t) {
        return Json::from_i64(n);
    }
    match read_fraction(t) {
        Fraction::NotFinite => Json::Null,
        Fraction::Spelled(s) => {
            let spelling = string_of(s.as_slice());
            match Json::parse(spelling.as_str()) {
                Some(v) => v,
                None => Json::Null,
            }
        },
        Fraction::NotANumber => {
            let d = match between(t, '"') {
                Some(x) => x,
                None => t,
            };
            let d = match between(d, '\'') {
                Some(x) => x,
                None => d,
            };
            Json::Text(string_of(d))
        },
    }
}

/// The object in a list whose first field is given, and the line behind it.
fn read_object(ls: &Vec<&[char]>, at: usize, first: (String, Json)) -> (r: (
    Vec<(String, Json)>,
    usize,
))
    requires
        at <= ls@.len(),
    ensures
        (entries_view(r.0@), r.1 as int) == object_fields(
            spelled(ls@),
            at as int,
            Map::<Seq<char>, JsonView>::empty().insert(first.0@, first.1@),
        ),
        at <= r.1 <= ls@.len(),
{
    let ghost lv = spelled(ls@);
    let mut out: Vec<(String, Json)> = Vec::new();
    proof {
        lemma_entries_push(out@, first);
    }
    let ghost start = Map::<Seq<char>, JsonView>::empty().insert(first.0@, first.1@);
    out.push(first);
    let mut i: usize = at;
    while i < ls.len() && begins_with(ls[i], "    ")
        invariant
            at <= i <= ls@.len(),
            lv == spelled(ls@),
            object_fields(lv, at as int, start) == object_fields(
                lv,
                i as int,
                entries_view(out@),
            ),
        decreases ls@.len() - i,
    {
        assert(lv[i as int] == ls@[i as int]@);
        if let Some((k, v)) = split_at_char(trimmed(ls[i]), ':') {
            set_entry(&mut out, string_of(trimmed(k)), scalar_value(trimmed(v)));
        }
        i += 1;
    }
    assert(i < ls@.len() ==> lv[i as int] == ls@[i as int]@);
    (out, i)
}

/// The list that begins at line `at`, and the line behind it.
fn read_list(ls: &Vec<&[char]>, at: usize) -> (r: (Vec<Json>, usize))
    requires
        at <= ls@.len(),
    ensures
        (items_view(r.0@), r.1 as int) == list_items(spelled(ls@), at as int, seq![]),
        at <= r.1 <= ls@.len(),
{
    let ghost lv = spelled(ls@);
    let mut out: Vec<Json> = Vec::new();
    let mut i: usize = at;
    while i < ls.len() && begins_with(ls[i], "  - ")
        invariant
            at <= i <= ls@.len(),
            lv == spelled(ls@),
            list_items(lv, at as int, seq![]) == list_items(lv, i as int, items_view(out@)),
        decreases ls@.len() - i,
    {
        assert(lv[i as int] == ls@[i as int]@);
        let raw = trimmed(without_leading_text(ls[i], "  - "));
        if raw.len() == 0 {
            i += 1;
        } else if let Some((k, v)) = split_at_char(raw, ':') {
            let (object, next) = read_object(
                ls,
                i + 1,
                (string_of(trimmed(k)), scalar_value(trimmed(v))),
            );
            let item = Json::Object(object);
            proof {
                lemma_items_push(out@, item);
            }
            out.push(item);
            i = next;
        } else {
            let item = scalar_value(raw);
            proof {
                lemma_items_push(out@, item);
            }
            out.push(item);
            i += 1;
        }
    }
    assert(i < ls@.len() ==> lv[i as int] == ls@[i as int]@);
    (out, i)
}

/// The fields that a block of front matter holds.
pub fn parse_simple_yaml(input: &[char]) -> (r: Vec<(String, Json)>)
    ensures
        entries_view(r@) == fields_of(input@),
{
    let ls = line_list(input);
    let ghost lv = spelled(ls@);
    let mut out: Vec<(String, Json)> = Vec::new();
    let mut i: usize = 0;
    while i < ls.len()
        invariant
            i <= ls@.len(),
            lv == spelled(ls@),
            fields_from(lv, 0, Map::empty()) == fields_from(lv, i as int, entries_view(out@)),
        decreases ls@.len() - i,
    {
        let line = ls[i];
        assert(lv[i as int] == line@);
        if trimmed(line).len() == 0 || begins_with(trimmed_start(line), "#") || begins_with(
            line,
            " ",
        ) {
            i += 1;
            continue;
        }
        match split_at_char(line, ':') {
            None => {
                i += 1;
            },
            Some((key, rest)) => {
                let key = string_of(trimmed(key));
                let rest = trimmed(rest);
                if rest.len() == 0 {
                    let (items, next) = read_list(&ls, i + 1);
                    set_entry(&mut out, key, Json::Array(items));
                    i = next;
                } else {
                    set_entry(&mut out, key, scalar_value(rest));
                    i += 1;
                }
            },
        }
    }
    out
}

/// The fields of a document and its body.
pub fn parse_frontmatter(content: &str) -> (r: (FrontMatter, &str))
    ensures
        r.0@ == document_fields(content@),
        r.1@ == document_body(content@),
{
    let chars = chars_of(content);
    let n: usize = chars.len();
    let all = chars.as_slice();
    if !begins_with(all, "---\n") {
        return (FrontMatter::default(), content);
    }
    let head: usize = chars_of("---\n").len();
    let rest = vstd::slice::slice_subrange(all, head, n);
    assert(rest@ == content@.skip("---\n"@.len() as int));
    match position(rest, "\n---\n") {
        None => (FrontMatter::default(), content),
        Some(end) => {
            let fence: usize = chars_of("\n---\n").len();
            let block = vstd::slice::slice_subrange(rest, 0, end);
            assert(block@ == rest@.take(end as int));
            let body = content.substring_char(head + end + fence, n);
            assert(body@ =~= rest@.skip(end + "\n---\n"@.len()));
            (FrontMatter { fields: parse_simple_yaml(block) }, body)
        },
    }
}

/// The text of the scalar under `key`.
pub fn frontmatter_scalar(fm: &FrontMatter, key: &str) -> (r: Option<String>)
    ensures
        crate::text::opt_text(r) == field_text(fm@, key@),
{
    match entry(&fm.fields, key) {
        Some(Json::Text(s)) => Some(s.clone()),
        Some(Json::Number(n)) => Some(n.write()),
        Some(Json::Bool(b)) => Some(
            if *b {
                "true".to_owned()
            } else {
                "false".to_owned()
            },
        ),
        _ => None,
    }
}

/// Puts the trimmed form of `piece` behind `out`, unless nothing is left of it.
fn push_word(out: &mut Vec<String>, piece: &[char])
    ensures
        texts(final(out)@) == if trim(piece@).len() == 0 {
            texts(old(out)@)
        } else {
            texts(old(out)@).push(trim(piece@))
        },
{
    let w = trimmed(piece);
    if w.len() > 0 {
        out.push(string_of(w));
        assert(texts(out@) =~= texts(old(out)@).push(w@));
    }
}

/// The list of words under `key`.
pub fn frontmatter_string_list(fm: &FrontMatter, key: &str) -> (r: Vec<String>)
    ensures
        texts(r@) == field_words(fm@, key@),
{
    let mut out: Vec<String> = Vec::new();
    assert(texts(out@) =~= Seq::<Seq<char>>::empty());
    match entry(&fm.fields, key) {
        Some(Json::Array(items)) => {
            let ghost iv = items_view(items@);
            proof {
                crate::json::lemma_items_view(items@);
            }
            let mut i: usize = 0;
            assert(iv.take(0) =~= Seq::<JsonView>::empty());
            while i < items.len()
                invariant
                    i <= items@.len(),
                    iv == items_view(items@),
                    iv.len() == items@.len(),
                    forall|j: int| 0 <= j < items@.len() ==> iv[j] == (#[trigger] items@[j])@,
                    texts(out@) == words(text_items(iv.take(i as int))),
                decreases items@.len() - i,
            {
                assert(iv.take(i + 1).drop_last() == iv.take(i as int));
                let ghost so_far = text_items(iv.take(i as int));
                if let Some(s) = items[i].as_str() {
                    let piece = chars_of(s);
                    push_word(&mut out, piece.as_slice());
                    assert(so_far.push(s@).drop_last() == so_far);
                }
                i += 1;
            }
            assert(iv.take(i as int) == iv);
            out
        },
        Some(Json::Text(s)) => {
            let chars = chars_of(s.as_str());
            proof {
                reveal_strlit(",");
            }
            let parts = pieces(chars.as_slice(), ",");
            let ghost pv = spelled(parts@);
            let mut i: usize = 0;
            assert(pv.take(0) =~= Seq::<Seq<char>>::empty());
            while i < parts.len()
                invariant
                    i <= parts@.len(),
                    pv == spelled(parts@),
                    texts(out@) == words(pv.take(i as int)),
                decreases parts@.len() - i,
            {
                assert(pv.take(i + 1).drop_last() == pv.take(i as int));
                push_word(&mut out, parts[i]);
                i += 1;
            }
            assert(pv.take(i as int) == pv);
            out
        },
        _ => out,
    }
}

/// The `i32` that the scalar under `key` spells.
pub fn frontmatter_i32(fm: &FrontMatter, key: &str) -> (r: Option<i32>)
    ensures
        match r {
            Some(v) => field_i32(fm@, key@) == Some(v as int),
            None => field_i32(fm@, key@) is None,
        },
{
    match frontmatter_scalar(fm, key) {
        Some(t) => {
            let chars = chars_of(t.as_str());
            parse_i32(chars.as_slice())
        },
        None => None,
    }
}

/// A document with front matter is its block and its body between and behind the
/// fences, and the block ends at the first fence; any other is all body.
pub proof fn law_documents_are_cut_at_their_fences(s: Seq<char>)
    ensures
        match cut_document(s) {
            Some(cut) => {
                &&& s == "---\n"@ + cut.0 + "\n---\n"@ + cut.1
                &&& !contains_text(cut.0, "\n---\n"@)
            },
            None => document_body(s) == s,
        },
{
    if let Some(cut) = cut_document(s) {
        reveal_strlit("---\n");
        reveal_strlit("\n---\n");
        let rest = s.skip(4);
        let fence = "\n---\n"@;
        lemma_find_is_contains(rest, fence, 0);
        let end = find(rest, fence)->0;
        assert(s.subrange(0, 4) == "---\n"@);
        assert(rest.subrange(end, end + 5) == fence);
        assert(rest =~= cut.0 + rest.subrange(end, end + 5) + cut.1);
        assert(s =~= s.subrange(0, 4) + rest);
        assert(s =~= "---\n"@ + cut.0 + fence + cut.1);
        if contains_text(cut.0, fence) {
            let j = choose|j: int| occurs_at(cut.0, fence, j);
            assert(rest.subrange(j, j + 5) =~= cut.0.subrange(j, j + 5));
            assert(occurs_at(rest, fence, j));
        }
    }
}

/// A field that is an integer is read as that integer.
pub proof fn law_integer_fields_are_read(m: Map<Seq<char>, JsonView>, key: Seq<char>, n: int)
    requires
        m.dom().contains(key),
        m[key] == JsonView::Number(int_number(n)),
        i32::MIN <= n <= i32::MAX,
    ensures
        field_i32(m, key) == Some(n),
{
    law_integers_are_read_back(n);
    assert(number_text(int_number(n)) == decimal_int(n));
}

/// A document that begins with a fence and has another one is cut at the first of
/// the others; one that does not begin with a fence, or has no other, is all body
/// and has no fields.
pub proof fn law_fences_part_documents(a: Seq<char>, b: Seq<char>, s: Seq<char>)
    ensures
        (forall|j: int|
            0 <= j < a.len() ==> !occurs_at(a + "\n---\n"@ + b, "\n---\n"@, j)) ==> {
            &&& document_body("---\n"@ + (a + "\n---\n"@ + b)) == b
            &&& document_fields("---\n"@ + (a + "\n---\n"@ + b)) == fields_of(a)
        },
        !starts_with(s, "---\n"@) || !contains_text(s.skip(4), "\n---\n"@) ==> {
            &&& document_body(s) == s
            &&& document_fields(s) == Map::<Seq<char>, JsonView>::empty()
        },
{
    reveal_strlit("---\n");
    reveal_strlit("\n---\n");
    let fence = "\n---\n"@;
    let rest = a + fence + b;
    let whole = "---\n"@ + rest;
    law_finding(rest, fence);
    law_finding(s.skip(4), fence);
    assert(whole.subrange(0, 4) =~= "---\n"@);
    assert(whole.skip(4) =~= rest);
    assert(rest.subrange(a.len() as int, a.len() as int + 5) =~= fence);
    assert(occurs_at(rest, fence, a.len() as int));
    if forall|j: int| 0 <= j < a.len() ==> !occurs_at(rest, fence, j) {
        assert(find(rest, fence) == Some(a.len() as int));
        assert(rest.take(a.len() as int) =~= a);
        assert(rest.skip(a.len() as int + 5) =~= b);
    }
}

/// A line with a key and a value gives the field of that key that value; one with a
/// key alone gives it the list that follows. Later fields take the place of earlier
/// ones of their key.
pub proof fn law_lines_give_fields(
    ls: Seq<Seq<char>>,
    i: int,
    acc: Map<Seq<char>, JsonView>,
    key: Seq<char>,
    value: Seq<char>,
)
    requires
        0 <= i < ls.len(),
        ls[i] == key + seq![':'] + value,
        key.len() > 0,
        !key.contains(':'),
        !is_space(key.first()),
        key.first() != '#',
    ensures
        trim(value).len() > 0 ==> fields_from(ls, i, acc) == fields_from(
            ls,
            i + 1,
            acc.insert(trim(key), scalar_of(trim(value))),
        ),
        trim(value).len() == 0 ==> fields_from(ls, i, acc) == fields_from(
            ls,
            list_items(ls, i + 1, seq![]).1,
            acc.insert(trim(key), JsonView::Array(list_items(ls, i + 1, seq![]).0)),
        ),
{
    reveal_strlit("#");
    reveal_strlit(" ");
    let l = ls[i];
    law_cutting_at_a_character(key, ':', value);
    assert(l.first() == key.first());
    assert(trim_start(l) == l);
    assert(!starts_with(l, "#"@)) by {
        if starts_with(l, "#"@) {
            assert(l.subrange(0, 1)[0] == '#');
        }
    }
    assert(!starts_with(l, " "@)) by {
        if starts_with(l, " "@) {
            assert(l.subrange(0, 1)[0] == ' ');
        }
    }
    law_trimming(l);
    assert(trim(l).len() > 0) by {
        if trim(l).len() == 0 {
            let (x, y) = choose|x: int, y: int|
                0 <= x <= y <= l.len() && trim(l) == #[trigger] l.subrange(x, y) && (forall|k: int|
                    0 <= k < x || y <= k < l.len() ==> is_space(#[trigger] l[k]));
            assert(is_space(l[0]));
        }
    }
}

/// Blank lines, lines that begin with a space, comments and lines without a colon
/// give no field, and the last line is the end.
pub proof fn law_other_lines_give_none(
    ls: Seq<Seq<char>>,
    i: int,
    acc: Map<Seq<char>, JsonView>,
)
    ensures
        0 <= i < ls.len() && (trim(ls[i]).len() == 0 || (ls[i].len() > 0 && ls[i].first() == ' ')
            || (trim(ls[i]).len() > 0 && trim(ls[i]).first() == '#') || !ls[i].contains(':'))
            ==> fields_from(ls, i, acc) == fields_from(ls, i + 1, acc),
        i >= ls.len() ==> fields_from(ls, i, acc) == acc,
{
    reveal_strlit("#");
    reveal_strlit(" ");
    if 0 <= i < ls.len() {
        let l = ls[i];
        law_splitting_once(l, ':');
        if l.len() > 0 && l.first() == ' ' {
            assert(l.subrange(0, 1) =~= " "@);
        }
        if trim(l).len() > 0 && trim(l).first() == '#' {
            let t = trim_start(l);
            lemma_trim_front(l);
            assert(t.subrange(0, 1) =~= "#"@);
        }
        if !l.contains(':') {
            match split_once(l, ':') {
                Some(p) => {
                    assert(l[p.0.len() as int] == ':');
                },
                None => {},
            }
        }
    }
}

/// A line with two spaces, a hyphen and a space is an item of a list: the value
/// behind it, or where a colon stands there an object that takes in the lines behind
/// it that begin with four spaces. A line of another form ends the list.
pub proof fn law_lines_give_items(
    ls: Seq<Seq<char>>,
    i: int,
    acc: Seq<JsonView>,
    rest: Seq<char>,
)
    requires
        0 <= i < ls.len(),
    ensures
        !starts_with(ls[i], "  - "@) ==> list_items(ls, i, acc) == (acc, i),
        ls[i] == "  - "@ + rest && !starts_with(rest, "  - "@) ==> {
            let raw = trim(rest);
            &&& raw.len() == 0 ==> list_items(ls, i, acc) == list_items(ls, i + 1, acc)
            &&& raw.len() > 0 && !raw.contains(':') ==> list_items(ls, i, acc) == list_items(
                ls,
                i + 1,
                acc.push(scalar_of(raw)),
            )
            &&& raw.contains(':') ==> {
                let kv = split_once(raw, ':')->0;
                let o = object_fields(
                    ls,
                    i + 1,
                    Map::empty().insert(trim(kv.0), scalar_of(trim(kv.1))),
                );
                list_items(ls, i, acc) == list_items(ls, o.1, acc.push(JsonView::Object(o.0)))
            }
        },
{
    reveal_strlit("  - ");
    let item = "  - "@;
    if ls[i] == item + rest && !starts_with(rest, item) {
        let l = ls[i];
        assert(l.subrange(0, 4) =~= item);
        assert(l.skip(4) =~= rest);
        assert(strip_leading_text(rest, item) == rest);
        assert(strip_leading_text(l, item) == rest);
        let raw = trim(rest);
        law_splitting_once(raw, ':');
        match split_once(raw, ':') {
            Some(p) => {
                assert(raw[p.0.len() as int] == ':');
            },
            None => {},
        }
    }
}

/// A line of an object gives its key its value; a line that does not begin with four
/// spaces ends the object.
pub proof fn law_lines_give_entries(
    ls: Seq<Seq<char>>,
    i: int,
    acc: Map<Seq<char>, JsonView>,
    key: Seq<char>,
    value: Seq<char>,
)
    requires
        0 <= i < ls.len(),
    ensures
        !starts_with(ls[i], "    "@) ==> object_fields(ls, i, acc) == (acc, i),
        starts_with(ls[i], "    "@) && trim(ls[i]) == key + seq![':'] + value && !key.contains(':')
            ==> object_fields(ls, i, acc) == object_fields(
            ls,
            i + 1,
            acc.insert(trim(key), scalar_of(trim(value))),
        ),
        starts_with(ls[i], "    "@) && !trim(ls[i]).contains(':') ==> object_fields(ls, i, acc)
            == object_fields(ls, i + 1, acc),
{
    let t = trim(ls[i]);
    law_splitting_once(t, ':');
    match split_once(t, ':') {
        Some(p) => {
            assert(t[p.0.len() as int] == ':');
            if t == key + seq![':'] + value && !key.contains(':') {
                law_cutting_at_a_character(key, ':', value);
            }
        },
        None => {
            if t == key + seq![':'] + value {
                assert(t[key.len() as int] == ':');
                assert(t.contains(':'));
            }
        },
    }
}

/// A value is a truth value, an integer, a fraction or a text; a text may stand in
/// quotes, which do not belong to it.
pub proof fn law_values_are_read(t: Seq<char>, n: int, x: Seq<char>)
    ensures
        same_ignoring_ascii_case(trim(t), "true"@) ==> scalar_of(t) == JsonView::Bool(true),
        same_ignoring_ascii_case(trim(t), "false"@) ==> scalar_of(t) == JsonView::Bool(false),
        i64::MIN <= n <= i64::MAX && trim(t) == decimal_int(n) ==> scalar_of(t)
            == JsonView::Number(int_number(n)),
        !same_ignoring_ascii_case(trim(t), "true"@) && !same_ignoring_ascii_case(
            trim(t),
            "false"@,
        ) && int_value(trim(t)) is None && fraction(trim(t)) == FractionView::NotANumber
            ==> scalar_of(t) == JsonView::Text(unquoted(trim(t))),
        inside(x, '\'') is None ==> unquoted(seq!['"'] + x + seq!['"']) == x,
        unquoted(seq!['\''] + x + seq!['\'']) == x,
        x.len() > 0 && x.first() != '"' && x.first() != '\'' ==> unquoted(x) == x,
{
    reveal_strlit("true");
    reveal_strlit("false");
    let u = trim(t);
    if same_ignoring_ascii_case(u, "true"@) {
    }
    if same_ignoring_ascii_case(u, "false"@) {
        assert("false"@.len() == 5 && "true"@.len() == 4);
    }
    if i64::MIN <= n <= i64::MAX && u == decimal_int(n) {
        law_integers_are_read_back(n);
        assert(u.len() > 0 && (u[0] == '-' || is_digit(u[0]))) by {
            if n >= 0 {
                assert(int_value(u) is Some);
                if u[0] == '+' {
                    lemma_decimal_first(n as nat);
                }
                lemma_decimal_first(n as nat);
            }
        }
        assert(ascii_lower(u[0]) == u[0]);
        assert(ascii_lower("true"@[0]) == 't');
        assert(ascii_lower("false"@[0]) == 'f');
    }
    let d = seq!['"'] + x + seq!['"'];
    assert(d.subrange(1, d.len() - 1) =~= x);
    let q = seq!['\''] + x + seq!['\''];
    assert(q.subrange(1, q.len() - 1) =~= x);
}

proof fn lemma_decimal_first(n: nat)
    ensures
        decimal(n).len() > 0,
        is_digit(decimal(n)[0]),
    decreases n,
{
    if n >= 10 {
        lemma_decimal_first(n / 10);
        assert(decimal(n)[0] == decimal(n / 10)[0]);
    }
}

/// A field is read as the text of its value: a text as itself, a number and a truth
/// value as they are written. Lists and objects have none, nor has a field that is
/// not there.
pub proof fn law_fields_are_read(m: Map<Seq<char>, JsonView>, key: Seq<char>, s: Seq<char>)
    ensures
        !m.dom().contains(key) ==> field_text(m, key) is None && field_i32(m, key) is None
            && field_words(m, key).len() == 0,
        m.contains_pair(key, JsonView::Text(s)) ==> field_text(m, key) == Some(s),
        m.contains_pair(key, JsonView::Bool(true)) ==> field_text(m, key) == Some("true"@),
        m.contains_pair(key, JsonView::Bool(false)) ==> field_text(m, key) == Some("false"@),
        m.dom().contains(key) && (m[key] is Array || m[key] is Object || m[key] is Null)
            ==> field_text(m, key) is None,
        m.dom().contains(key) && m[key] is Number ==> field_text(m, key) == Some(
            number_text(m[key]->Number_0),
        ),
        field_i32(m, key) == match field_text(m, key) {
            Some(t) => match int_value(t) {
                Some(v) => if -0x8000_0000 <= v <= 0x7fff_ffff {
                    Some(v)
                } else {
                    None
                },
                None => None,
            },
            None => None,
        },
{
}

/// The words of a field are the items of a list that are texts, or what stands
/// between the commas of a text: without white space around them, without those
/// that are blank, and in their order.
pub proof fn law_words_are_read(
    m: Map<Seq<char>, JsonView>,
    key: Seq<char>,
    a: Seq<Seq<char>>,
    b: Seq<Seq<char>>,
    w: Seq<char>,
)
    ensures
        words(a + b) == words(a) + words(b),
        words(seq![w]) == if trim(w).len() > 0 {
            seq![trim(w)]
        } else {
            seq![]
        },
        m.dom().contains(key) && m[key] is Text ==> field_words(m, key) == words(
            split(m[key]->Text_0, ","@),
        ),
        m.dom().contains(key) && m[key] is Array ==> field_words(m, key) == words(
            text_items(m[key]->Array_0),
        ),
    decreases b.len(),
{
    let none = Seq::<Seq<char>>::empty();
    assert(words(none) =~= none);
    assert(seq![w].drop_last() =~= none);
    assert(seq![w].last() == w);
    assert(words(seq![w]) =~= if trim(w).len() > 0 {
        seq![trim(w)]
    } else {
        seq![]
    });
    if b.len() == 0 {
        assert(a + b =~= a);
        assert(words(a) + words(b) =~= words(a));
    } else {
        assert((a + b).drop_last() =~= a + b.drop_last());
        law_words_are_read(m, key, a, b.drop_last(), w);
        assert(words(a + b) =~= words(a) + words(b));
    }
}

/// The texts among the items of a list are kept in their order, and nothing else.
pub proof fn law_text_items_are_kept(a: Seq<JsonView>, b: Seq<JsonView>, v: JsonView)
    ensures
        text_items(a + b) == text_items(a) + text_items(b),
        text_items(seq![v]) == match v {
            JsonView::Text(s) => seq![s],
            _ => seq![],
        },
    decreases b.len(),
{
    let none = Seq::<JsonView>::empty();
    assert(text_items(none) =~= Seq::<Seq<char>>::empty());
    assert(seq![v].drop_last() =~= none);
    assert(seq![v].last() == v);
    assert(text_items(seq![v]) =~= match v {
        JsonView::Text(s) => seq![s],
        _ => seq![],
    });
    if b.len() == 0 {
        assert(a + b =~= a);
        assert(text_items(a) + text_items(b) =~= text_items(a));
    } else {
        assert((a + b).drop_last() =~= a + b.drop_last());
        law_text_items_are_kept(a, b.drop_last(), v);
        assert(text_items(a + b) =~= text_items(a) + text_items(b));
    }
}

/// The fields of a block are those that its lines give, from the first one on and
/// with none to begin with.
pub proof fn law_blocks_give_fields(block: Seq<char>)
    ensures
        fields_of(block) == fields_from(lines(block), 0, Map::empty()),
        block.len() == 0 ==> fields_of(block) == Map::<Seq<char>, JsonView>::empty(),
{
}

} // verus!
