//! The part of the wiki that a prompt is answered with.

use vstd::prelude::*;
use vstd::string::StringExecFns;

use crate::knowledge_wiki::types::{hit_views, HitView, WikiSearchHit};
use crate::numerals::{decimal_int, write_i64};
use crate::text::{chars_of, push_text, replace_char, replaced, same_chars, same_text};
use crate::text::{lemma_replaced_chars, opt_text, string_of};
use crate::text::{law_replacing, lemma_replace_absent};

verus! {

/// The namespace that a wiki has unless it is given another one.
pub const DEFAULT_KNOWLEDGE_WIKI_NAMESPACE: &'static str = "global";

/// How many entries a prompt is given.
pub const DEFAULT_LIMIT: usize = 5;

/// How many characters of previews a prompt is given.
pub const DEFAULT_BUDGET_CHARS: usize = 4_000;

/// How many characters of a preview are taken unless its document says otherwise.
pub const DEFAULT_INJECT_CHARS: usize = 1_200;

/// Looks up the entries of a wiki that belong to a prompt.
#[derive(Clone, Debug, PartialEq)]
pub struct WikiContextProvider {
    pub namespace: String,
    pub limit: usize,
    pub budget_chars: usize,
}

/// A search to be made in the index.
#[derive(Clone, Debug, PartialEq)]
pub struct WikiSearchRequest {
    pub namespace: String,
    pub query: String,
    pub limit: usize,
}

/// `input`, where it is no longer than `max` characters, else its first `max`
/// characters and three dots.
pub open spec fn shortened(input: Seq<char>, max: nat) -> Seq<char> {
    if input.len() <= max {
        input
    } else {
        input.take(max as int) + "..."@
    }
}

/// How many characters of a preview are taken.
pub open spec fn inject_chars(max: Option<i32>) -> nat {
    match max {
        Some(v) => if v > 0 {
            v as nat
        } else {
            DEFAULT_INJECT_CHARS as nat
        },
        None => DEFAULT_INJECT_CHARS as nat,
    }
}

/// What tells one entry from another: its kind and its path.
pub open spec fn hit_key(h: HitView) -> Seq<char> {
    h.kind + ":"@ + h.path
}

/// A result with its preview cut to size.
pub open spec fn fitted(h: HitView) -> HitView {
    HitView { preview: shortened(h.preview, inject_chars(h.max_inject_chars)), ..h }
}

/// The entries picked so far, the characters that their previews take, and
/// whether the picking is over.
pub struct Picking {
    pub picked: Seq<HitView>,
    pub used: nat,
    pub over: bool,
}

/// The sum, but at most the largest `usize`.
pub open spec fn capped_sum(a: nat, b: nat) -> nat {
    if a + b <= usize::MAX {
        a + b
    } else {
        usize::MAX as nat
    }
}

/// Whether an entry with this key was picked.
pub open spec fn already_picked(picked: Seq<HitView>, key: Seq<char>) -> bool {
    exists|j: int| 0 <= j < picked.len() && hit_key(#[trigger] picked[j]) == key
}

/// Looks at one more result: a disabled one, or one whose key was picked, is
/// passed over; one that goes beyond the budget ends the picking, unless it is
/// the first; so does the one that reaches the limit.
pub open spec fn pick(p: Picking, hit: HitView, limit: nat, budget: nat) -> Picking {
    if p.over || hit.status == Some("disabled"@) || already_picked(p.picked, hit_key(hit)) {
        p
    } else {
        let h = fitted(hit);
        let projected = capped_sum(p.used, h.preview.len());
        if projected > budget && p.picked.len() > 0 {
            Picking { over: true, ..p }
        } else {
            Picking {
                picked: p.picked.push(h),
                used: projected,
                over: p.picked.len() + 1 >= limit,
            }
        }
    }
}

/// Looks at the results one after another.
pub open spec fn pick_all(hits: Seq<HitView>, limit: nat, budget: nat) -> Picking
    decreases hits.len(),
{
    if hits.len() == 0 {
        Picking { picked: seq![], used: 0, over: false }
    } else {
        pick(pick_all(hits.drop_last(), limit, budget), hits.last(), limit, budget)
    }
}

/// The entries that a prompt is given.
pub open spec fn selected(hits: Seq<HitView>, limit: nat, budget: nat) -> Seq<HitView> {
    pick_all(hits, limit, budget).picked
}

/// A text in which the characters with a meaning in markup are replaced by
/// their entities.
pub open spec fn escaped_text(s: Seq<char>) -> Seq<char> {
    replace_char(replace_char(replace_char(s, '&', "&amp;"@), '<', "&lt;"@), '>', "&gt;"@)
}

/// The same for the value of an attribute, which ends at a double quote.
pub open spec fn escaped_attr(s: Seq<char>) -> Seq<char> {
    replace_char(
        replace_char(
            replace_char(replace_char(s, '&', "&amp;"@), '"', "&quot;"@),
            '<',
            "&lt;"@,
        ),
        '>',
        "&gt;"@,
    )
}

/// One entry of the context.
pub open spec fn entry_markup(h: HitView) -> Seq<char> {
    "\n<entry kind=\""@ + escaped_attr(h.kind) + "\" path=\""@ + escaped_attr(h.path)
        + "\" priority=\""@ + decimal_int(h.priority as int) + "\""@ + (match h.doc_type {
        Some(t) => " type=\""@ + escaped_attr(t) + "\""@,
        None => Seq::<char>::empty(),
    }) + ">\n"@ + escaped_text(h.preview) + "\n</entry>\n"@
}

/// The entries of the context, one behind the other.
pub open spec fn entries_markup(hits: Seq<HitView>) -> Seq<char>
    decreases hits.len(),
{
    if hits.len() == 0 {
        seq![]
    } else {
        entries_markup(hits.drop_last()) + entry_markup(hits.last())
    }
}

/// What the context begins with.
pub open spec fn context_head(namespace: Seq<char>) -> Seq<char> {
    "<knowledge_wiki_context namespace=\""@ + escaped_attr(namespace)
        + "\" trust=\"operator-maintained\">\n"@
        + "Use this operator-maintained business knowledge as background and rule context. Do not invent facts beyond the cited wiki snippets.\n"@
}

/// The context that a prompt is given.
pub open spec fn context_markup(namespace: Seq<char>, hits: Seq<HitView>) -> Seq<char> {
    context_head(namespace) + entries_markup(hits) + "</knowledge_wiki_context>"@
}

impl WikiContextProvider {
    /// A provider for the default namespace, limit and budget.
    pub fn new() -> (r: Self)
        ensures
            r.namespace@ == DEFAULT_KNOWLEDGE_WIKI_NAMESPACE@,
            r.limit == DEFAULT_LIMIT,
            r.budget_chars == DEFAULT_BUDGET_CHARS,
    {
        WikiContextProvider {
            namespace: DEFAULT_KNOWLEDGE_WIKI_NAMESPACE.to_owned(),
            limit: DEFAULT_LIMIT,
            budget_chars: DEFAULT_BUDGET_CHARS,
        }
    }

    /// The search to be made for a prompt: for four times as many results as
    /// entries are given, since some of them will be passed over.
    pub fn search_request(&self, prompt: &str) -> (r: WikiSearchRequest)
        ensures
            r.namespace@ == self.namespace@,
            r.query@ == prompt@,
            r.limit == if self.limit * 4 <= usize::MAX {
                self.limit * 4
            } else {
                usize::MAX as int
            },
    {
        let limit: usize = match self.limit.checked_mul(4) {
            Some(n) => n,
            None => usize::MAX,
        };
        WikiSearchRequest {
            namespace: self.namespace.clone(),
            query: prompt.to_owned(),
            limit,
        }
    }

    /// The context made of the results of that search, where any of them is picked.
    pub fn context_for_prompt(&self, hits: Vec<WikiSearchHit>) -> (r: Option<String>)
        ensures
            opt_text(r) == ({
                let s = selected(
                    hit_views(hits@),
                    self.limit as nat,
                    self.budget_chars as nat,
                );
                if s.len() == 0 {
                    None
                } else {
                    Some(context_markup(self.namespace@, s))
                }
            }),
    {
        let chosen = select_hits(hits, self.limit, self.budget_chars);
        assert(hit_views(chosen@).len() == chosen@.len());
        if chosen.len() == 0 {
            return None;
        }
        Some(format_context(self.namespace.as_str(), &chosen))
    }
}

/// Whether an entry with the key of `hit` was picked.
fn was_picked(chosen: &Vec<WikiSearchHit>, hit: &WikiSearchHit) -> (r: bool)
    ensures
        r == already_picked(hit_views(chosen@), hit_key(hit@)),
{
    let key = key_of(hit);
    let mut i: usize = 0;
    let ghost cv = hit_views(chosen@);
    while i < chosen.len()
        invariant
            i <= chosen@.len(),
            cv == hit_views(chosen@),
            key@ == hit_key(hit@),
            forall|j: int| 0 <= j < i ==> hit_key(#[trigger] cv[j]) != hit_key(hit@),
        decreases chosen@.len() - i,
    {
        let other = key_of(&chosen[i]);
        assert(cv[i as int] == chosen@[i as int]@);
        if same_chars(other.as_slice(), key.as_slice()) {
            return true;
        }
        i += 1;
    }
    false
}

/// The key of a result.
fn key_of(hit: &WikiSearchHit) -> (r: Vec<char>)
    ensures
        r@ == hit_key(hit@),
{
    let mut key = chars_of(hit.kind.as_str());
    push_text(&mut key, ":");
    push_text(&mut key, hit.path.as_str());
    key
}

/// The entries that a prompt is given.
pub fn select_hits(hits: Vec<WikiSearchHit>, limit: usize, budget_chars: usize) -> (r: Vec<
    WikiSearchHit,
>)
    ensures
        hit_views(r@) == selected(hit_views(hits@), limit as nat, budget_chars as nat),
{
    let ghost hv = hit_views(hits@);
    let mut chosen: Vec<WikiSearchHit> = Vec::new();
    let mut used: usize = 0;
    let mut over: bool = false;
    assert(hit_views(chosen@) =~= Seq::<HitView>::empty());
    assert(hv.take(0) =~= Seq::<HitView>::empty());
    for hit in it: hits
        invariant
            it.seq() == hits@,
            hv == hit_views(hits@),
            ({
                let p = pick_all(
                    hv.take(it.index() as int),
                    limit as nat,
                    budget_chars as nat,
                );
                &&& hit_views(chosen@) == p.picked
                &&& used == p.used
                &&& over == p.over
            }),
    {
        let ghost i = it.index() as int;
        assert(hv.take(i + 1).drop_last() == hv.take(i));
        assert(hv.take(i + 1).last() == hit@);
        assert(hit_views(chosen@).len() == chosen@.len());
        let disabled = match &hit.status {
            Some(s) => same_text(s.as_str(), "disabled"),
            None => false,
        };
        if !over && !disabled && !was_picked(&chosen, &hit) {
            let max_chars: usize = match hit.max_inject_chars {
                Some(v) => if v > 0 {
                    v as usize
                } else {
                    DEFAULT_INJECT_CHARS
                },
                None => DEFAULT_INJECT_CHARS,
            };
            let preview = truncate_chars(hit.preview.as_str(), max_chars);
            let count: usize = chars_of(preview.as_str()).len();
            let projected: usize = used.saturating_add(count);
            if projected > budget_chars && chosen.len() > 0 {
                over = true;
            } else {
                let ghost before = chosen@;
                let ghost seen = hit@;
                let mut entry = hit;
                entry.preview = preview;
                used = projected;
                chosen.push(entry);
                over = chosen.len() >= limit;
                assert(hit_views(chosen@) =~= hit_views(before).push(fitted(seen)));
            }
        }
    }
    assert(hv.take(hv.len() as int) == hv);
    chosen
}

/// The context that a prompt is given.
pub fn format_context(namespace: &str, hits: &Vec<WikiSearchHit>) -> (r: String)
    ensures
        r@ == context_markup(namespace@, hit_views(hits@)),
{
    let ghost hv = hit_views(hits@);
    let mut out = String::new();
    out.append("<knowledge_wiki_context namespace=\"");
    out.append(escape_attr(namespace).as_str());
    out.append("\" trust=\"operator-maintained\">\n");
    out.append(
        "Use this operator-maintained business knowledge as background and rule context. Do not invent facts beyond the cited wiki snippets.\n",
    );
    assert(out@ =~= context_head(namespace@));
    let mut i: usize = 0;
    assert(hv.take(0) =~= Seq::<HitView>::empty());
    assert(out@ =~= context_head(namespace@) + entries_markup(hv.take(0)));
    while i < hits.len()
        invariant
            i <= hits@.len(),
            hv == hit_views(hits@),
            out@ == context_head(namespace@) + entries_markup(hv.take(i as int)),
        decreases hits@.len() - i,
    {
        let entry = format_entry(&hits[i]);
        assert(hv.take(i + 1).drop_last() == hv.take(i as int));
        assert(hv[i as int] == hits@[i as int]@);
        out.append(entry.as_str());
        i += 1;
        assert(out@ =~= context_head(namespace@) + entries_markup(hv.take(i as int)));
    }
    assert(hv.take(i as int) == hv);
    out.append("</knowledge_wiki_context>");
    out
}

/// One entry of the context.
fn format_entry(hit: &WikiSearchHit) -> (r: String)
    ensures
        r@ == entry_markup(hit@),
{
    let mut out = String::new();
    out.append("\n<entry kind=\"");
    out.append(escape_attr(hit.kind.as_str()).as_str());
    out.append("\" path=\"");
    out.append(escape_attr(hit.path.as_str()).as_str());
    out.append("\" priority=\"");
    out.append(write_i64(hit.priority as i64).as_str());
    out.append("\"");
    let ghost front = out@;
    if let Some(doc_type) = &hit.doc_type {
        out.append(" type=\"");
        out.append(escape_attr(doc_type.as_str()).as_str());
        out.append("\"");
        assert(out@ =~= front + (" type=\""@ + escaped_attr(doc_type@) + "\""@));
    } else {
        assert(out@ =~= front + Seq::<char>::empty());
    }
    out.append(">\n");
    out.append(escape_text(hit.preview.as_str()).as_str());
    out.append("\n</entry>\n");
    assert(out@ =~= entry_markup(hit@));
    out
}

/// The first `max_chars` characters of `input`, with three dots where more follow.
pub fn truncate_chars(input: &str, max_chars: usize) -> (r: String)
    ensures
        r@ == shortened(input@, max_chars as nat),
{
    let mut chars = chars_of(input);
    if chars.len() <= max_chars {
        return input.to_owned();
    }
    chars.truncate(max_chars);
    assert(chars@ =~= input@.take(max_chars as int));
    push_text(&mut chars, "...");
    string_of(chars.as_slice())
}

/// `input` as the value of an attribute.
pub fn escape_attr(input: &str) -> (r: String)
    ensures
        r@ == escaped_attr(input@),
{
    let chars = chars_of(input);
    let a = replaced(chars.as_slice(), '&', "&amp;");
    let b = replaced(a.as_slice(), '"', "&quot;");
    let c = replaced(b.as_slice(), '<', "&lt;");
    let d = replaced(c.as_slice(), '>', "&gt;");
    string_of(d.as_slice())
}

/// `input` as text between tags.
pub fn escape_text(input: &str) -> (r: String)
    ensures
        r@ == escaped_text(input@),
{
    let chars = chars_of(input);
    let a = replaced(chars.as_slice(), '&', "&amp;");
    let b = replaced(a.as_slice(), '<', "&lt;");
    let c = replaced(b.as_slice(), '>', "&gt;");
    string_of(c.as_slice())
}

/// An escaped text holds no bracket of a tag.
pub proof fn law_escaped_text_has_no_tags(s: Seq<char>)
    ensures
        !escaped_text(s).contains('<'),
        !escaped_text(s).contains('>'),
{
    reveal_strlit("&amp;");
    reveal_strlit("&lt;");
    reveal_strlit("&gt;");
    let a = replace_char(s, '&', "&amp;"@);
    let b = replace_char(a, '<', "&lt;"@);
    lemma_replaced_chars(a, '<', "&lt;"@, '<');
    lemma_replaced_chars(b, '>', "&gt;"@, '<');
    lemma_replaced_chars(b, '>', "&gt;"@, '>');
}

/// An escaped attribute value holds no bracket of a tag and no double quote.
pub proof fn law_escaped_attr_stays_in_its_quotes(s: Seq<char>)
    ensures
        !escaped_attr(s).contains('"'),
        !escaped_attr(s).contains('<'),
        !escaped_attr(s).contains('>'),
{
    reveal_strlit("&amp;");
    reveal_strlit("&quot;");
    reveal_strlit("&lt;");
    reveal_strlit("&gt;");
    let a = replace_char(s, '&', "&amp;"@);
    let b = replace_char(a, '"', "&quot;"@);
    let c = replace_char(b, '<', "&lt;"@);
    lemma_replaced_chars(a, '"', "&quot;"@, '"');
    lemma_replaced_chars(b, '<', "&lt;"@, '"');
    lemma_replaced_chars(c, '>', "&gt;"@, '"');
    lemma_replaced_chars(b, '<', "&lt;"@, '<');
    lemma_replaced_chars(c, '>', "&gt;"@, '<');
    lemma_replaced_chars(c, '>', "&gt;"@, '>');
}

/// The characters that the previews of some entries take.
pub open spec fn preview_chars(hits: Seq<HitView>) -> nat
    decreases hits.len(),
{
    if hits.len() == 0 {
        0
    } else {
        preview_chars(hits.drop_last()) + hits.last().preview.len()
    }
}

spec fn sound_picking(p: Picking, limit: nat, budget: nat) -> bool {
    &&& p.used == capped_sum(preview_chars(p.picked), 0)
    &&& p.picked.len() <= 1 || p.used <= budget
    &&& p.over || p.picked.len() < limit || p.picked.len() == 0
    &&& p.picked.len() <= limit || p.picked.len() <= 1
    &&& forall|i: int, j: int|
        0 <= i < j < p.picked.len() ==> hit_key(#[trigger] p.picked[i]) != hit_key(
            #[trigger] p.picked[j],
        )
    &&& forall|i: int|
        0 <= i < p.picked.len() ==> (#[trigger] p.picked[i]).status != Some("disabled"@)
}

proof fn lemma_pick_all(hits: Seq<HitView>, limit: nat, budget: nat)
    requires
        budget < usize::MAX,
    ensures
        sound_picking(pick_all(hits, limit, budget), limit, budget),
        pick_all(hits, limit, budget).used <= usize::MAX,
    decreases hits.len(),
{
    if hits.len() > 0 {
        lemma_pick_all(hits.drop_last(), limit, budget);
        let p = pick_all(hits.drop_last(), limit, budget);
        let q = pick_all(hits, limit, budget);
        let hit = hits.last();
        if q.picked.len() > p.picked.len() {
            assert(q.picked.drop_last() =~= p.picked);
            assert(hit_key(fitted(hit)) == hit_key(hit));
        }
    }
}

/// No more entries are given than the limit allows (one, where it is zero), no
/// two of them have one key, none is disabled, and the previews of several
/// entries keep within the budget.
pub proof fn law_selection_is_bounded(hits: Seq<HitView>, limit: nat, budget: nat)
    requires
        budget < usize::MAX,
    ensures
        ({
            let s = selected(hits, limit, budget);
            &&& s.len() <= limit || s.len() <= 1
            &&& s.len() <= 1 || preview_chars(s) <= budget
            &&& forall|i: int, j: int|
                0 <= i < j < s.len() ==> hit_key(#[trigger] s[i]) != hit_key(#[trigger] s[j])
            &&& forall|i: int| 0 <= i < s.len() ==> (#[trigger] s[i]).status != Some("disabled"@)
        }),
{
    lemma_pick_all(hits, limit, budget);
}

/// Once the picking is over, further results change nothing.
pub proof fn law_picking_ends(p: Picking, hit: HitView, limit: nat, budget: nat)
    requires
        p.over,
    ensures
        pick(p, hit, limit, budget) == p,
{
}

/// A preview that is too long is cut after as many characters as are allowed, and
/// marked as cut; others are given as they are. A document may say how many are
/// allowed, and twelve hundred are where it does not.
pub proof fn law_previews_are_shortened(h: HitView, s: Seq<char>, max: nat)
    ensures
        s.len() <= max ==> shortened(s, max) == s,
        s.len() > max ==> shortened(s, max).len() == max + 3 && shortened(s, max).subrange(
            0,
            max as int,
        ) == s.subrange(0, max as int) && shortened(s, max).skip(max as int) == "..."@,
        h.max_inject_chars matches Some(v) ==> v > 0 ==> fitted(h).preview == shortened(
            h.preview,
            v as nat,
        ),
        !(h.max_inject_chars matches Some(v) && v > 0) ==> fitted(h).preview == shortened(
            h.preview,
            1200,
        ),
        fitted(h) == (HitView { preview: fitted(h).preview, ..h }),
        hit_key(h) == h.kind + ":"@ + h.path,
{
    reveal_strlit("...");
    if s.len() > max {
        assert(shortened(s, max).subrange(0, max as int) =~= s.subrange(0, max as int));
        assert(shortened(s, max).skip(max as int) =~= "..."@);
    }
}

/// Results are picked one after another, in their order. A result that is disabled,
/// or of which one with its kind and path is picked already, is passed over. Another
/// is picked, its preview shortened, as long as there are fewer than the limit and
/// the previews keep within the budget; the first is picked in any case. Picking
/// ends with the first that does not keep within it.
pub proof fn law_results_are_picked_in_turn(
    hits: Seq<HitView>,
    h: HitView,
    limit: nat,
    budget: nat,
)
    requires
        budget < usize::MAX,
    ensures
        selected(Seq::empty(), limit, budget) == Seq::<HitView>::empty(),
        !pick_all(Seq::empty(), limit, budget).over,
        ({
            let p = pick_all(hits, limit, budget);
            let s = selected(hits, limit, budget);
            let t = selected(hits.push(h), limit, budget);
            let over = pick_all(hits.push(h), limit, budget).over;
            let passed = h.status == Some("disabled"@) || exists|j: int|
                0 <= j < s.len() && hit_key(#[trigger] s[j]) == hit_key(h);
            let fits = s.len() == 0 || preview_chars(s) + fitted(h).preview.len() <= budget;
            &&& p.over ==> t == s && over
            &&& !p.over && passed ==> t == s && !over
            &&& !p.over && !passed && fits ==> t == s.push(fitted(h)) && (over <==> t.len()
                >= limit)
            &&& !p.over && !passed && !fits ==> t == s && over
        }),
{
    lemma_pick_all(hits, limit, budget);
    assert(hits.push(h).drop_last() =~= hits);
    assert(hits.push(h).last() == h);
}

/// Results that all fit are all picked: where none is disabled, no two have one
/// kind and path, there are no more than the limit, and the shortened previews keep
/// within the budget.
pub proof fn law_what_fits_is_picked(hits: Seq<HitView>, limit: nat, budget: nat)
    requires
        budget < usize::MAX,
        hits.len() <= limit,
        forall|i: int| 0 <= i < hits.len() ==> (#[trigger] hits[i]).status != Some("disabled"@),
        forall|i: int, j: int|
            0 <= i < j < hits.len() ==> hit_key(#[trigger] hits[i]) != hit_key(#[trigger] hits[j]),
        preview_chars(hits.map_values(|h: HitView| fitted(h))) <= budget,
    ensures
        selected(hits, limit, budget) == hits.map_values(|h: HitView| fitted(h)),
        pick_all(hits, limit, budget).over ==> hits.len() >= limit,
    decreases hits.len(),
{
    let all = hits.map_values(|h: HitView| fitted(h));
    if hits.len() == 0 {
        assert(selected(hits, limit, budget) =~= all);
    } else {
        let front = hits.drop_last();
        let some = front.map_values(|h: HitView| fitted(h));
        assert(all.drop_last() =~= some);
        assert forall|i: int| 0 <= i < front.len() implies (#[trigger] front[i]).status != Some(
            "disabled"@,
        ) by {
            assert(front[i] == hits[i]);
        }
        assert forall|i: int, j: int| 0 <= i < j < front.len() implies hit_key(#[trigger] front[i])
            != hit_key(#[trigger] front[j]) by {
            assert(front[i] == hits[i] && front[j] == hits[j]);
        }
        law_what_fits_is_picked(front, limit, budget);
        let n = hits.len() - 1;
        let h = hits[n];
        assert(front.push(h) =~= hits);
        law_results_are_picked_in_turn(front, h, limit, budget);
        assert(h.status != Some("disabled"@));
        let s = selected(front, limit, budget);
        assert forall|j: int| 0 <= j < s.len() implies hit_key(#[trigger] s[j]) != hit_key(h) by {
            assert(s[j] == fitted(hits[j]));
            assert(hit_key(hits[j]) != hit_key(hits[n]));
        }
        assert(all =~= s.push(fitted(h)));
    }
}

/// Escaping works character by character: the ampersand, the brackets of tags and,
/// in an attribute, the double quote are written by their names, and all else is
/// kept.
pub proof fn law_escaping(a: Seq<char>, b: Seq<char>, x: char)
    ensures
        escaped_text(a + b) == escaped_text(a) + escaped_text(b),
        escaped_attr(a + b) == escaped_attr(a) + escaped_attr(b),
        escaped_text(seq![x]) == if x == '&' {
            "&amp;"@
        } else if x == '<' {
            "&lt;"@
        } else if x == '>' {
            "&gt;"@
        } else {
            seq![x]
        },
        escaped_attr(seq![x]) == if x == '"' {
            "&quot;"@
        } else {
            escaped_text(seq![x])
        },
{
    reveal_strlit("&amp;");
    reveal_strlit("&lt;");
    reveal_strlit("&gt;");
    reveal_strlit("&quot;");
    let one = seq![x];
    let (amp, lt, gt, quot) = ("&amp;"@, "&lt;"@, "&gt;"@, "&quot;"@);
    let a1 = replace_char(a, '&', amp);
    let b1 = replace_char(b, '&', amp);
    law_replacing(a, b, '&', amp, x);
    law_replacing(a1, b1, '<', lt, x);
    law_replacing(replace_char(a1, '<', lt), replace_char(b1, '<', lt), '>', gt, x);
    law_replacing(a1, b1, '"', quot, x);
    let a2 = replace_char(a1, '"', quot);
    let b2 = replace_char(b1, '"', quot);
    law_replacing(a2, b2, '<', lt, x);
    law_replacing(replace_char(a2, '<', lt), replace_char(b2, '<', lt), '>', gt, x);
    lemma_replace_absent(amp, '"', quot);
    lemma_replace_absent(amp, '<', lt);
    lemma_replace_absent(amp, '>', gt);
    lemma_replace_absent(quot, '<', lt);
    lemma_replace_absent(quot, '>', gt);
    lemma_replace_absent(lt, '>', gt);
    if x != '&' {
        lemma_replace_absent(one, '&', amp);
    }
}

/// A context names its namespace, holds its entries in their order, and ends. Each
/// entry names its kind, its path, its priority and, where it has one, its type, and
/// holds its preview.
pub proof fn law_contexts_hold_their_entries(
    namespace: Seq<char>,
    a: Seq<HitView>,
    b: Seq<HitView>,
    h: HitView,
)
    ensures
        entries_markup(a + b) == entries_markup(a) + entries_markup(b),
        entries_markup(seq![h]) == entry_markup(h),
        context_markup(namespace, a) == "<knowledge_wiki_context namespace=\""@ + escaped_attr(
            namespace,
        ) + "\" trust=\"operator-maintained\">\n"@
            + "Use this operator-maintained business knowledge as background and rule context. Do not invent facts beyond the cited wiki snippets.\n"@
            + entries_markup(a) + "</knowledge_wiki_context>"@,
        h.doc_type is None ==> entry_markup(h) == "\n<entry kind=\""@ + escaped_attr(h.kind)
            + "\" path=\""@ + escaped_attr(h.path) + "\" priority=\""@ + decimal_int(
            h.priority as int,
        ) + "\""@ + ">\n"@ + escaped_text(h.preview) + "\n</entry>\n"@,
        h.doc_type matches Some(t) ==> entry_markup(h) == "\n<entry kind=\""@ + escaped_attr(h.kind)
            + "\" path=\""@ + escaped_attr(h.path) + "\" priority=\""@ + decimal_int(
            h.priority as int,
        ) + "\""@ + (" type=\""@ + escaped_attr(t) + "\""@) + ">\n"@ + escaped_text(h.preview)
            + "\n</entry>\n"@,
    decreases b.len(),
{
    let none = Seq::<HitView>::empty();
    assert(entries_markup(none) =~= Seq::<char>::empty());
    assert(seq![h].drop_last() =~= none);
    assert(seq![h].last() == h);
    assert(entries_markup(seq![h]) =~= entry_markup(h));
    if h.doc_type is None {
        let head = "\n<entry kind=\""@ + escaped_attr(h.kind) + "\" path=\""@ + escaped_attr(h.path)
            + "\" priority=\""@ + decimal_int(h.priority as int) + "\""@;
        assert(head + Seq::<char>::empty() =~= head);
    }
    if b.len() == 0 {
        assert(a + b =~= a);
        assert(entries_markup(a) + entries_markup(b) =~= entries_markup(a));
    } else {
        assert((a + b).drop_last() =~= a + b.drop_last());
        law_contexts_hold_their_entries(namespace, a, b.drop_last(), h);
        assert(entries_markup(a + b) =~= entries_markup(a) + entries_markup(b));
    }
}

} // verus!
