//! Which paths a wiki's documents have.

use vstd::prelude::*;

use crate::knowledge_wiki::paths::{normal_path, normalize_path};
use crate::text::{chars_of, concat2, texts};
use crate::wiki_tool::error::{ErrorView, ToolError};
use crate::wiki_tool::file_path::{has_markdown_extension, is_markdown, path_to_string};
use crate::wiki_tool::file_path::with_slashes;

verus! {

/// What an entry of a directory is.
#[derive(Clone, Copy, Debug, PartialEq, Eq, Structural)]
pub enum EntryKind {
    Directory,
    File,
    Other,
}

/// What is done with an entry of a directory.
#[derive(Debug, PartialEq)]
pub enum EntryAction {
    /// Its own entries are looked at.
    Descend,
    /// It is a document, with this path.
    Take(String),
    /// It is passed over.
    Pass,
}

/// What an action is.
pub enum EntryActionView {
    Descend,
    Take(Seq<char>),
    Pass,
}

impl View for EntryAction {
    type V = EntryActionView;

    open spec fn view(&self) -> EntryActionView {
        match self {
            EntryAction::Descend => EntryActionView::Descend,
            EntryAction::Take(p) => EntryActionView::Take(p@),
            EntryAction::Pass => EntryActionView::Pass,
        }
    }
}

/// What is done with an entry: directories are looked into, Markdown files are taken.
pub open spec fn entry_action(kind: EntryKind, path: Seq<u8>) -> EntryActionView {
    match kind {
        EntryKind::Directory => EntryActionView::Descend,
        EntryKind::File => if is_markdown(path) {
            EntryActionView::Take(with_slashes(path))
        } else {
            EntryActionView::Pass
        },
        EntryKind::Other => EntryActionView::Pass,
    }
}

/// What is done with an entry of a directory.
pub fn classify_entry(kind: EntryKind, path: &[u8]) -> (r: EntryAction)
    ensures
        r@ == entry_action(kind, path@),
{
    match kind {
        EntryKind::Directory => EntryAction::Descend,
        EntryKind::File => if has_markdown_extension(path) {
            EntryAction::Take(path_to_string(path))
        } else {
            EntryAction::Pass
        },
        EntryKind::Other => EntryAction::Pass,
    }
}

/// Whether `a` comes before `b`, or is `b`, in the order of their characters.
pub open spec fn not_after(a: Seq<char>, b: Seq<char>) -> bool
    decreases a.len(),
{
    if a.len() == 0 {
        true
    } else if b.len() == 0 {
        false
    } else if a.first() != b.first() {
        a.first() < b.first()
    } else {
        not_after(a.drop_first(), b.drop_first())
    }
}

/// `x` put into a list before the first text that it is not after.
pub open spec fn placed(x: Seq<char>, s: Seq<Seq<char>>) -> Seq<Seq<char>>
    decreases s.len(),
{
    if s.len() == 0 {
        seq![x]
    } else if not_after(x, s.first()) {
        seq![x] + s
    } else {
        seq![s.first()] + placed(x, s.drop_first())
    }
}

/// The texts of a list in order.
pub open spec fn in_order(s: Seq<Seq<char>>) -> Seq<Seq<char>>
    decreases s.len(),
{
    if s.len() == 0 {
        seq![]
    } else {
        placed(s.last(), in_order(s.drop_last()))
    }
}

/// Whether every text of a list is not after those behind it.
pub open spec fn is_in_order(s: Seq<Seq<char>>) -> bool {
    forall|i: int, j: int|
        0 <= i < j < s.len() ==> not_after(#[trigger] s[i], #[trigger] s[j])
}

proof fn lemma_not_after_total(a: Seq<char>, b: Seq<char>)
    ensures
        not_after(a, b) || not_after(b, a),
    decreases a.len(),
{
    if a.len() > 0 && b.len() > 0 && a.first() == b.first() {
        lemma_not_after_total(a.drop_first(), b.drop_first());
    }
}

proof fn lemma_not_after_transitive(a: Seq<char>, b: Seq<char>, c: Seq<char>)
    requires
        not_after(a, b),
        not_after(b, c),
    ensures
        not_after(a, c),
    decreases a.len(),
{
    if a.len() > 0 && b.len() > 0 && c.len() > 0 && a.first() == b.first() && b.first()
        == c.first() {
        lemma_not_after_transitive(a.drop_first(), b.drop_first(), c.drop_first());
    }
}

proof fn lemma_placed(x: Seq<char>, s: Seq<Seq<char>>)
    requires
        is_in_order(s),
    ensures
        is_in_order(placed(x, s)),
        placed(x, s).to_multiset() =~= s.to_multiset().insert(x),
        placed(x, s).len() == s.len() + 1,
        forall|i: int|
            0 <= i < placed(x, s).len() ==> #[trigger] placed(x, s)[i] == x || s.contains(
                placed(x, s)[i],
            ),
    decreases s.len(),
{
    broadcast use vstd::seq_lib::group_to_multiset_ensures;

    let out = placed(x, s);
    if s.len() == 0 {
        assert(out =~= Seq::<Seq<char>>::empty().push(x));
        assert(s =~= Seq::<Seq<char>>::empty());
    } else if not_after(x, s.first()) {
        assert(out =~= s.insert(0, x));
        assert(out.to_multiset() =~= s.to_multiset().insert(x));
        assert forall|i: int, j: int| 0 <= i < j < out.len() implies not_after(
            #[trigger] out[i],
            #[trigger] out[j],
        ) by {
            assert(out[j] == s[j - 1]);
            if i == 0 {
                if j > 1 {
                    lemma_not_after_transitive(x, s[0], s[j - 1]);
                }
            } else {
                assert(out[i] == s[i - 1]);
            }
        }
        assert forall|i: int| 0 <= i < out.len() implies #[trigger] out[i] == x || s.contains(
            out[i],
        ) by {
            if i > 0 {
                assert(out[i] == s[i - 1]);
            }
        }
    } else {
        let rest = s.drop_first();
        assert forall|i: int, j: int| 0 <= i < j < rest.len() implies not_after(
            #[trigger] rest[i],
            #[trigger] rest[j],
        ) by {
            assert(rest[i] == s[i + 1] && rest[j] == s[j + 1]);
        }
        lemma_placed(x, rest);
        lemma_not_after_total(x, s.first());
        let tail = placed(x, rest);
        assert(out =~= tail.insert(0, s.first()));
        assert(s =~= rest.insert(0, s.first()));
        assert(out.to_multiset() =~= s.to_multiset().insert(x));
        assert forall|i: int, j: int| 0 <= i < j < out.len() implies not_after(
            #[trigger] out[i],
            #[trigger] out[j],
        ) by {
            assert(out[j] == tail[j - 1]);
            if i == 0 {
                if tail[j - 1] != x {
                    assert(rest.contains(tail[j - 1]));
                    let k = choose|k: int| 0 <= k < rest.len() && rest[k] == tail[j - 1];
                    assert(s[k + 1] == rest[k]);
                    assert(not_after(s[0], s[k + 1]));
                }
            } else {
                assert(out[i] == tail[i - 1]);
            }
        }
        assert forall|i: int| 0 <= i < out.len() implies #[trigger] out[i] == x || s.contains(
            out[i],
        ) by {
            if i > 0 {
                assert(out[i] == tail[i - 1]);
                if tail[i - 1] != x {
                    let k = choose|k: int| 0 <= k < rest.len() && rest[k] == tail[i - 1];
                    assert(s[k + 1] == rest[k]);
                }
            } else {
                assert(s[0] == out[0]);
            }
        }
    }
}

/// The ordered list holds the same texts as the list, in order.
pub proof fn law_in_order_sorts(s: Seq<Seq<char>>)
    ensures
        is_in_order(in_order(s)),
        in_order(s).to_multiset() == s.to_multiset(),
    decreases s.len(),
{
    broadcast use vstd::seq_lib::group_to_multiset_ensures;

    if s.len() > 0 {
        law_in_order_sorts(s.drop_last());
        lemma_placed(s.last(), in_order(s.drop_last()));
        assert(s =~= s.drop_last().push(s.last()));
        assert(in_order(s).to_multiset() =~= s.to_multiset());
    } else {
        assert(in_order(s) =~= s);
    }
}

/// Whether `a` comes before `b`, or is `b`, in the order of their characters.
fn comes_first(a: &[char], b: &[char]) -> (r: bool)
    ensures
        r == not_after(a@, b@),
{
    let mut i: usize = 0;
    assert(a@.skip(0) == a@);
    assert(b@.skip(0) == b@);
    while i < a.len()
        invariant
            i <= a@.len(),
            i <= b@.len(),
            not_after(a@, b@) == not_after(a@.skip(i as int), b@.skip(i as int)),
        decreases a@.len() - i,
    {
        if i >= b.len() {
            return false;
        }
        if a[i] != b[i] {
            return a[i] < b[i];
        }
        assert(a@.skip(i as int).drop_first() == a@.skip(i + 1));
        assert(b@.skip(i as int).drop_first() == b@.skip(i + 1));
        i += 1;
    }
    true
}

/// Puts `x` into the list before the first text that it is not after.
fn place(out: &mut Vec<String>, x: String)
    ensures
        texts(final(out)@) == placed(x@, texts(old(out)@)),
{
    let ghost all = texts(out@);
    let chars = chars_of(x.as_str());
    let mut i: usize = 0;
    assert(all.skip(0) == all);
    assert(all.take(0) + placed(x@, all.skip(0)) =~= placed(x@, all));
    let mut found: bool = false;
    while !found && i < out.len()
        invariant
            i <= out@.len(),
            found ==> i < out@.len() && not_after(x@, all[i as int]),
            out@ == old(out)@,
            all == texts(out@),
            chars@ == x@,
            all.take(i as int) + placed(x@, all.skip(i as int)) == placed(x@, all),
        decreases (if found { 0 } else { out@.len() - i + 1 }),
    {
        let other = chars_of(out[i].as_str());
        assert(all.skip(i as int).first() == other@);
        if comes_first(chars.as_slice(), other.as_slice()) {
            found = true;
        } else {
            proof {
                let s = all.skip(i as int);
                assert(s.drop_first() == all.skip(i + 1));
                assert(all.take(i as int) + (seq![s.first()] + placed(x@, s.drop_first()))
                    =~= all.take(i + 1) + placed(x@, all.skip(i + 1)));
            }
            i += 1;
        }
    }
    out.insert(i, x);
    proof {
        let s = all.skip(i as int);
        assert(found ==> s.first() == all[i as int]);
        assert(placed(x@, s) =~= seq![x@] + s);
        assert(texts(out@) =~= all.take(i as int) + (seq![x@] + s));
    }
}

/// The paths in order.
pub fn sort_paths(paths: Vec<String>) -> (r: Vec<String>)
    ensures
        texts(r@) == in_order(texts(paths@)),
{
    let ghost all = texts(paths@);
    let mut out: Vec<String> = Vec::new();
    assert(texts(out@) =~= in_order(all.take(0)));
    for p in it: paths
        invariant
            it.seq() == paths@,
            all == texts(paths@),
            texts(out@) == in_order(all.take(it.index() as int)),
    {
        let ghost i = it.index() as int;
        assert(all.take(i + 1).drop_last() == all.take(i));
        assert(all.take(i + 1).last() == p@);
        place(&mut out, p);
    }
    assert(all.take(all.len() as int) == all);
    out
}

/// The normal forms of a list of workspace paths.
pub open spec fn normal_paths(s: Seq<Seq<char>>) -> Seq<Seq<char>> {
    s.map_values(|p: Seq<char>| normal_path(p))
}

/// The normal forms of a list of workspace paths.
pub fn normalize_paths(paths: &Vec<String>) -> (r: Vec<String>)
    ensures
        texts(r@) == normal_paths(texts(paths@)),
{
    let mut out: Vec<String> = Vec::new();
    let mut i: usize = 0;
    assert(texts(out@) =~= normal_paths(texts(paths@)).take(0));
    while i < paths.len()
        invariant
            i <= paths@.len(),
            texts(out@) == normal_paths(texts(paths@)).take(i as int),
        decreases paths@.len() - i,
    {
        let ghost before = out@;
        out.push(normalize_path(paths[i].as_str()));
        i += 1;
        assert(texts(out@) =~= texts(before).push(out@.last()@));
        assert(normal_paths(texts(paths@))[i - 1] == normal_path(paths@[i - 1]@));
        assert(texts(out@) =~= normal_paths(texts(paths@)).take(i as int));
    }
    assert(texts(out@) =~= normal_paths(texts(paths@)));
    out
}

/// Why a wiki's paths could not be listed.
#[derive(Debug, PartialEq)]
pub enum ListFailure {
    /// The workspace could not list its paths.
    Workspace(String),
    /// The listing did not run to its end.
    Interrupted(String),
    /// A directory could not be read.
    Directory { dir: String, reason: String },
    /// An entry of a directory could not be read.
    Entry(String),
    /// The kind of an entry could not be read.
    EntryKind(String),
}

/// The error for a listing that failed.
pub open spec fn list_error_of(f: ListFailure) -> ErrorView {
    ErrorView::ExecutionFailed(
        match f {
            ListFailure::Workspace(e) => "list wiki paths failed: "@ + e@,
            ListFailure::Interrupted(e) => "list file wiki paths failed: "@ + e@,
            ListFailure::Directory { dir, reason } => "read wiki directory "@ + dir@ + " failed: "@
                + reason@,
            ListFailure::Entry(e) => "read wiki directory entry failed: "@ + e@,
            ListFailure::EntryKind(e) => "read wiki file type failed: "@ + e@,
        },
    )
}

/// The error for a listing that failed.
pub fn list_error(f: &ListFailure) -> (r: ToolError)
    ensures
        r@ == list_error_of(*f),
{
    ToolError::ExecutionFailed(
        match f {
            ListFailure::Workspace(e) => concat2("list wiki paths failed: ", e.as_str()),
            ListFailure::Interrupted(e) => concat2("list file wiki paths failed: ", e.as_str()),
            ListFailure::Directory { dir, reason } => {
                let head = concat2("read wiki directory ", dir.as_str());
                let head = concat2(head.as_str(), " failed: ");
                concat2(head.as_str(), reason.as_str())
            },
            ListFailure::Entry(e) => concat2("read wiki directory entry failed: ", e.as_str()),
            ListFailure::EntryKind(e) => concat2("read wiki file type failed: ", e.as_str()),
        },
    )
}

/// One text comes before another where it is a part of it from its beginning, or
/// where the first character in which they differ comes before the other's.
pub proof fn law_order_of_texts(a: Seq<char>, b: Seq<char>, i: int)
    requires
        0 <= i <= a.len(),
        i <= b.len(),
        a.take(i) == b.take(i),
    ensures
        i == a.len() ==> not_after(a, b),
        i == b.len() && i < a.len() ==> !not_after(a, b),
        i < a.len() && i < b.len() && (a[i] as int) < (b[i] as int) ==> not_after(a, b)
            && !not_after(b, a),
    decreases i,
{
    if i > 0 {
        assert(a.first() == a.take(i)[0]);
        assert(b.first() == b.take(i)[0]);
        let a1 = a.drop_first();
        let b1 = b.drop_first();
        assert(a1.take(i - 1) =~= a.take(i).drop_first());
        assert(b1.take(i - 1) =~= b.take(i).drop_first());
        law_order_of_texts(a1, b1, i - 1);
        if i < a.len() && i < b.len() {
            assert(a1[i - 1] == a[i] && b1[i - 1] == b[i]);
        }
    }
}

/// The paths of a workspace are brought into their normal form, one by one.
pub proof fn law_workspace_paths_are_normal(s: Seq<Seq<char>>, i: int)
    requires
        0 <= i < s.len(),
    ensures
        normal_paths(s).len() == s.len(),
        normal_paths(s)[i] == normal_path(s[i]),
{
}

/// Directories are looked into, Markdown files are taken with their paths, and
/// everything else is passed over.
pub proof fn law_entries_are_chosen(path: Seq<u8>)
    ensures
        entry_action(EntryKind::Directory, path) is Descend,
        entry_action(EntryKind::Other, path) is Pass,
        is_markdown(path) ==> entry_action(EntryKind::File, path) == EntryActionView::Take(
            with_slashes(path),
        ),
        !is_markdown(path) ==> entry_action(EntryKind::File, path) is Pass,
{
}

/// What a listing that failed says.
pub proof fn law_failed_listings_say_why(f: ListFailure)
    ensures
        list_error_of(f) matches ErrorView::ExecutionFailed(m) && match f {
            ListFailure::Workspace(e) => m == "list wiki paths failed: "@ + e@,
            ListFailure::Interrupted(e) => m == "list file wiki paths failed: "@ + e@,
            ListFailure::Directory { dir, reason } => m == "read wiki directory "@ + dir@
                + " failed: "@ + reason@,
            ListFailure::Entry(e) => m == "read wiki directory entry failed: "@ + e@,
            ListFailure::EntryKind(e) => m == "read wiki file type failed: "@ + e@,
        },
{
}

} // verus!
