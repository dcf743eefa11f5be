//! Which workspace paths belong to a wiki.

use vstd::prelude::*;

use crate::text::{begins_with, chars_of, finishes_with, has_text, push_text, replaced};
use crate::text::{contains_text, ends_with, replace_char, starts_with, strip_leading};
use crate::text::{string_of, strip_trailing, text_at, trim, trimmed, without_leading};
use crate::text::{is_space, lemma_replace_absent, lemma_replace_one, lemma_strip_leading};
use crate::text::{lemma_strip_trailing, lemma_trim_clean, occurs_at};
use crate::text::without_trailing;
use crate::text::lemma_trim_ends;

verus! {

/// The root under which a wiki lies unless another one is configured.
pub const WIKI_ROOT: &'static str = "wiki/";

/// A path without surrounding white space and leading slashes, its separators
/// written as slashes.
pub open spec fn normal_path(path: Seq<char>) -> Seq<char> {
    replace_char(strip_leading(trim(path), '/'), '\\', "/"@)
}

/// The normal form of a wiki root, or the reason why it cannot be one.
pub open spec fn normal_root(root: Seq<char>) -> Result<Seq<char>, Seq<char>> {
    let n = normal_path(root);
    if n.len() == 0 {
        Err("wiki_root cannot be empty"@)
    } else if starts_with(n, "/"@) || contains_text(n, ".."@) {
        Err("wiki_root must be a relative workspace path without `..`"@)
    } else {
        Ok(strip_trailing(n, '/') + "/"@)
    }
}

/// Whether a normal path lies in one of the directories of the wiki at `root`
/// whose documents are indexed.
pub open spec fn in_indexed_dir(n: Seq<char>, root: Seq<char>) -> bool {
    ||| starts_with(n, root + "notes/"@)
    ||| starts_with(n, root + "sources/"@)
    ||| starts_with(n, root + "summaries/"@)
    ||| starts_with(n, root + "entities/"@)
    ||| starts_with(n, root + "relations/"@)
    ||| starts_with(n, root + "schema/entities/"@)
    ||| starts_with(n, root + "schema/relations/"@)
}

/// Whether the document at `path` belongs to the index of the wiki at `root`.
/// A root that has no normal form stands for the default one.
pub open spec fn indexable(path: Seq<char>, root: Seq<char>) -> bool {
    let n = normal_path(path);
    let r = match normal_root(root) {
        Ok(r) => r,
        Err(_) => WIKI_ROOT@,
    };
    ends_with(n, ".md"@) && !contains_text(n, ".."@) && in_indexed_dir(n, r)
}

/// The normal form of a path, as characters.
pub fn normal_chars(path: &str) -> (r: Vec<char>)
    ensures
        r@ == normal_path(path@),
{
    let chars = chars_of(path);
    replaced(without_leading(trimmed(chars.as_slice()), '/'), '\\', "/")
}

/// The normal form of a path.
pub fn normalize_path(path: &str) -> (r: String)
    ensures
        r@ == normal_path(path@),
{
    let chars = normal_chars(path);
    string_of(chars.as_slice())
}

/// Whether `n` begins with `root` and `dir`.
pub fn under_dir(n: &[char], root: &str, dir: &str) -> (r: bool)
    ensures
        r == starts_with(n@, root@ + dir@),
{
    let mut pat = chars_of(root);
    push_text(&mut pat, dir);
    text_at(n, pat.as_slice(), 0)
}

/// Whether the document at `path` belongs to the index of the default wiki.
pub fn is_indexable_wiki_path(path: &str) -> (r: bool)
    ensures
        r == indexable(path@, WIKI_ROOT@),
{
    is_indexable_wiki_path_under(path, WIKI_ROOT)
}

/// Whether the document at `path` belongs to the index of the wiki at `wiki_root`.
pub fn is_indexable_wiki_path_under(path: &str, wiki_root: &str) -> (r: bool)
    ensures
        r == indexable(path@, wiki_root@),
{
    let normalized = normal_chars(path);
    let n = normalized.as_slice();
    let root = match normalize_wiki_root(wiki_root) {
        Ok(root) => root,
        Err(_) => WIKI_ROOT.to_owned(),
    };
    let root = root.as_str();
    finishes_with(n, ".md") && !has_text(n, "..") && (under_dir(n, root, "notes/") || under_dir(
        n,
        root,
        "sources/",
    ) || under_dir(n, root, "summaries/") || under_dir(n, root, "entities/") || under_dir(
        n,
        root,
        "relations/",
    ) || under_dir(n, root, "schema/entities/") || under_dir(n, root, "schema/relations/"))
}

/// The normal form of a wiki root: relative, without `..`, with one slash at its end.
pub fn normalize_wiki_root(root: &str) -> (r: Result<String, String>)
    ensures
        match r {
            Ok(n) => normal_root(root@) == Ok::<Seq<char>, Seq<char>>(n@),
            Err(e) => normal_root(root@) == Err::<Seq<char>, Seq<char>>(e@),
        },
{
    let normalized = normal_chars(root);
    let n = normalized.as_slice();
    if n.len() == 0 {
        return Err("wiki_root cannot be empty".to_owned());
    }
    if begins_with(n, "/") || has_text(n, "..") {
        return Err("wiki_root must be a relative workspace path without `..`".to_owned());
    }
    let mut out: Vec<char> = Vec::new();
    crate::text::push_slice(&mut out, without_trailing(n, '/'));
    push_text(&mut out, "/");
    Ok(string_of(out.as_slice()))
}

/// A normal path holds no backslash.
proof fn lemma_normal_path_chars(path: Seq<char>)
    ensures
        !normal_path(path).contains('\\'),
{
    reveal_strlit("/");
    assert("/"@ =~= seq!['/']);
    let s = strip_leading(trim(path), '/');
    lemma_replace_one(s, '\\', '/');
    let n = normal_path(path);
    if n.contains('\\') {
        let i = choose|i: int| 0 <= i < n.len() && n[i] == '\\';
        assert(n[i] != '\\');
    }
}

/// Taking the normal form of a root twice is taking it once, where the form
/// does not begin with white space.
pub proof fn law_normal_root_is_stable(root: Seq<char>)
    requires
        normal_root(root) is Ok,
        !is_space(normal_root(root)->Ok_0.first()),
    ensures
        normal_root(normal_root(root)->Ok_0) == normal_root(root),
{
    reveal_strlit("/");
    reveal_strlit("..");
    let n = normal_path(root);
    let r = normal_root(root)->Ok_0;
    let k = strip_trailing(n, '/').len() as int;
    lemma_normal_path_chars(root);
    lemma_strip_trailing(n, '/');
    assert(n.first() != '/') by {
        if n.first() == '/' {
            assert(n.subrange(0, 1) =~= "/"@);
            assert(occurs_at(n, "/"@, 0));
        }
    }
    assert(k > 0) by {
        if k == 0 {
            assert(n[0] == '/');
        }
    }
    assert(r =~= n.take(k).push('/'));
    assert(r.first() == n.first());
    lemma_trim_clean(r);
    lemma_strip_leading(r, '/');
    assert(strip_leading(r, '/') == r);
    assert(!r.contains('\\')) by {
        if r.contains('\\') {
            let i = choose|i: int| 0 <= i < r.len() && r[i] == '\\';
            assert(n[i] == '\\');
        }
    }
    lemma_replace_absent(r, '\\', "/"@);
    assert(normal_path(r) == r);
    assert(!starts_with(r, "/"@)) by {
        if starts_with(r, "/"@) {
            assert(r.subrange(0, 1)[0] == '/');
        }
    }
    assert(!contains_text(r, ".."@)) by {
        if contains_text(r, ".."@) {
            let i = choose|i: int| occurs_at(r, ".."@, i);
            assert(r.subrange(i, i + 2)[0] == '.' && r.subrange(i, i + 2)[1] == '.');
            assert(r[i] == '.' && r[i + 1] == '.');
            assert(n.subrange(i, i + 2) =~= ".."@);
            assert(occurs_at(n, ".."@, i));
        }
    }
    lemma_strip_trailing(r, '/');
    assert(strip_trailing(r, '/') =~= n.take(k)) by {
        assert(r.drop_last() =~= n.take(k));
        assert(strip_trailing(n, '/') == n.take(k));
        assert(n.take(k).last() != '/');
    }
}

/// A path that is indexed lies under the root, is a Markdown document, and does
/// not climb out by `..`.
pub proof fn law_indexed_paths_stay_under_the_root(path: Seq<char>, root: Seq<char>)
    requires
        indexable(path, root),
        normal_root(root) is Ok,
    ensures
        starts_with(normal_path(path), normal_root(root)->Ok_0),
        ends_with(normal_path(path), ".md"@),
        !contains_text(normal_path(path), ".."@),
{
    let n = normal_path(path);
    let r = normal_root(root)->Ok_0;
    lemma_longer_start(n, r, "notes/"@);
    lemma_longer_start(n, r, "sources/"@);
    lemma_longer_start(n, r, "summaries/"@);
    lemma_longer_start(n, r, "entities/"@);
    lemma_longer_start(n, r, "relations/"@);
    lemma_longer_start(n, r, "schema/entities/"@);
    lemma_longer_start(n, r, "schema/relations/"@);
}

/// What begins with a text begins with the front of that text.
pub proof fn lemma_longer_start(n: Seq<char>, a: Seq<char>, b: Seq<char>)
    ensures
        starts_with(n, a + b) ==> starts_with(n, a),
{
    if starts_with(n, a + b) {
        let whole = n.subrange(0, (a + b).len() as int);
        assert forall|i: int| 0 <= i < a.len() implies n[i] == a[i] by {
            assert(whole[i] == (a + b)[i]);
        }
        assert(n.subrange(0, a.len() as int) =~= a);
    }
}

/// The normal form of a root is relative, without `..`, and ends with a slash.
pub proof fn law_normal_root_form(root: Seq<char>)
    requires
        normal_root(root) is Ok,
    ensures
        normal_root(root)->Ok_0.last() == '/',
        normal_root(root)->Ok_0.first() != '/',
        !contains_text(normal_root(root)->Ok_0, ".."@),
{
    reveal_strlit("/");
    reveal_strlit("..");
    let n = normal_path(root);
    let r = normal_root(root)->Ok_0;
    let k = strip_trailing(n, '/').len() as int;
    lemma_strip_trailing(n, '/');
    if n.first() == '/' {
        assert(n.subrange(0, 1) =~= "/"@);
        assert(occurs_at(n, "/"@, 0));
    }
    if k == 0 {
        assert(n[0] == '/');
    }
    assert(r =~= n.take(k).push('/'));
    if contains_text(r, ".."@) {
        let i = choose|i: int| occurs_at(r, ".."@, i);
        assert(r.subrange(i, i + 2)[0] == '.' && r.subrange(i, i + 2)[1] == '.');
        assert(r[i] == '.' && r[i + 1] == '.');
        assert(n.subrange(i, i + 2) =~= ".."@);
        assert(occurs_at(n, ".."@, i));
    }
}

/// A path that has no white space around it, no slash in front and no backslash is
/// in its normal form; slashes in front and white space around make no difference,
/// and a backslash is a slash.
pub proof fn law_normal_paths(p: Seq<char>, raw: Seq<char>)
    ensures
        p.len() > 0 && p.first() != '/' && !is_space(p.first()) && !is_space(p.last())
            && !p.contains('\\') ==> normal_path(p) == p,
        p.len() > 0 && !is_space(p.first()) && !is_space(p.last()) ==> normal_path(seq!['/'] + p)
            == normal_path(p),
        normal_path(trim(raw)) == normal_path(raw),
        normal_path(raw).len() == strip_leading(trim(raw), '/').len(),
        forall|i: int|
            0 <= i < normal_path(raw).len() ==> #[trigger] normal_path(raw)[i] == if strip_leading(
                trim(raw),
                '/',
            )[i] == '\\' {
                '/'
            } else {
                strip_leading(trim(raw), '/')[i]
            },
{
    reveal_strlit("/");
    assert("/"@ =~= seq!['/']);
    lemma_replace_one(strip_leading(trim(raw), '/'), '\\', '/');
    if p.len() > 0 && p.first() != '/' && !is_space(p.first()) && !is_space(p.last())
        && !p.contains('\\') {
        lemma_trim_clean(p);
        lemma_replace_absent(p, '\\', "/"@);
    }
    let longer = seq!['/'] + p;
    if p.len() > 0 && !is_space(p.first()) && !is_space(p.last()) {
        lemma_trim_clean(p);
        lemma_trim_clean(longer);
        assert(longer.drop_first() =~= p);
    }
    lemma_trim_ends(raw);
    lemma_trim_clean(trim(raw));
}

/// A root is a relative path without two dots in a row that is not empty, and has
/// one slash at its end.
pub proof fn law_roots_are_accepted(raw: Seq<char>)
    ensures
        ({
            let n = normal_path(raw);
            let good = n.len() > 0 && n.first() != '/' && !contains_text(n, ".."@);
            &&& good ==> normal_root(raw) == Ok::<Seq<char>, Seq<char>>(
                strip_trailing(n, '/') + seq!['/'],
            )
            &&& n.len() == 0 ==> normal_root(raw) == Err::<Seq<char>, Seq<char>>(
                "wiki_root cannot be empty"@,
            )
            &&& n.len() > 0 && !good ==> normal_root(raw) == Err::<Seq<char>, Seq<char>>(
                "wiki_root must be a relative workspace path without `..`"@,
            )
        }),
{
    reveal_strlit("/");
    assert("/"@ =~= seq!['/']);
    let n = normal_path(raw);
    if n.len() > 0 {
        assert(n.subrange(0, 1) =~= seq![n.first()]);
        if starts_with(n, "/"@) {
            assert(n.subrange(0, 1)[0] == '/');
        }
    }
}

/// A document is indexed exactly where it is a Markdown file without two dots in a
/// row in its path, in one of the seven directories of the wiki whose documents are.
pub proof fn law_seven_directories_are_indexed(path: Seq<char>, root: Seq<char>)
    requires
        normal_root(root) is Ok,
    ensures
        ({
            let n = normal_path(path);
            let r = normal_root(root)->Ok_0;
            indexable(path, root) <==> {
                &&& ends_with(n, ".md"@)
                &&& !contains_text(n, ".."@)
                &&& {
                    ||| starts_with(n, r + "notes/"@)
                    ||| starts_with(n, r + "sources/"@)
                    ||| starts_with(n, r + "summaries/"@)
                    ||| starts_with(n, r + "entities/"@)
                    ||| starts_with(n, r + "relations/"@)
                    ||| starts_with(n, r + "schema/entities/"@)
                    ||| starts_with(n, r + "schema/relations/"@)
                }
            }
        }),
        WIKI_ROOT@ == "wiki/"@,
{
}

} // verus!
