//! Where a wiki lies: in the workspace or in a directory of the local file system.

use vstd::prelude::*;
use vstd::slice::{slice_subrange, slice_to_vec};
use vstd::utf8::{encode_utf8, is_ascii_chars_encode_utf8, valid_utf8};

use crate::bytes::{as_slice_opt, chars_bytes, law_text_bytes_are_kept, lossy, lossy_text};
use crate::bytes::{law_texts_are_kept, lemma_encode_concat, opt_slice, text_bytes};
use crate::knowledge_wiki::paths::{indexable, is_indexable_wiki_path_under, normal_path};
use crate::knowledge_wiki::paths::{law_indexed_paths_stay_under_the_root, law_normal_root_form};
use crate::knowledge_wiki::paths::{law_normal_root_is_stable, normal_root, normalize_path};
use crate::knowledge_wiki::paths::{in_indexed_dir, normalize_wiki_root, WIKI_ROOT};
use crate::knowledge_wiki::relations::{card_at, card_outcome, parse_relation_card_under};
use crate::knowledge_wiki::relations::{CardView, RelationCard};
use crate::text::{begins_with, chars_of, concat2, contains_text, ends_with, finishes_with};
use crate::text::{has_text, opt_str, push_slice, push_text, same_chars};
use crate::text::{spells, starts_with, string_of, strip_leading, strip_trailing, text_at, trim};
use crate::text::{is_space, lemma_replace_absent, lemma_strip_leading, lemma_strip_trailing};
use crate::text::{lemma_replace_one, lemma_trim_clean, occurs_at};
use crate::text::{trimmed, without_leading, without_trailing};
use crate::wiki_tool::error::{error_message, text_outcome, ErrorView, ToolError};
use crate::wiki_tool::file_path::{climbs, is_plain, join, law_plain_paths_are_kept, lies_under};
use crate::wiki_tool::file_path::{name_end, path_climbs, path_join, path_relative};
use crate::wiki_tool::file_path::{path_to_string, path_under, relative_to, with_slashes, SLASH};
use crate::wiki_tool::file_path::{is_absolute, parts};

verus! {

/// What the setting of a root in the workspace begins with.
pub const WORKSPACE_ROOT_PREFIX: &'static str = "workspace:";

/// What the setting of a root in the file system begins with.
pub const FILE_ROOT_PREFIX: &'static str = "file:";

/// Where a wiki lies. A directory of the file system is given by its path.
#[derive(Clone, Debug, PartialEq)]
pub enum WikiRoot {
    Workspace { root: String },
    File { root: Vec<u8> },
}

/// What a root is.
pub enum RootView {
    Workspace(Seq<char>),
    File(Seq<u8>),
}

impl View for WikiRoot {
    type V = RootView;

    open spec fn view(&self) -> RootView {
        match self {
            WikiRoot::Workspace { root } => RootView::Workspace(root@),
            WikiRoot::File { root } => RootView::File(root@),
        }
    }
}

/// What the outcome of reading a root is.
pub open spec fn root_outcome(r: Result<WikiRoot, ToolError>) -> Result<RootView, ErrorView> {
    match r {
        Ok(root) => Ok(root@),
        Err(e) => Err(e@),
    }
}

/// What the outcome of working on a path is.
pub open spec fn path_outcome(r: Result<Vec<u8>, ToolError>) -> Result<Seq<u8>, ErrorView> {
    match r {
        Ok(s) => Ok(s@),
        Err(e) => Err(e@),
    }
}

/// The error where there is no home directory.
pub open spec fn no_home() -> ErrorView {
    ErrorView::InvalidParameters("home directory not found"@)
}

/// A path in which a leading `~` stands for the home directory.
pub open spec fn expanded(raw: Seq<char>, home: Option<Seq<u8>>) -> Result<
    Seq<u8>,
    ErrorView,
> {
    if raw == "~"@ {
        match home {
            Some(h) => Ok(h),
            None => Err(no_home()),
        }
    } else if starts_with(raw, "~/"@) {
        match home {
            Some(h) => Ok(join(h, encode_utf8(raw.skip("~/"@.len() as int)))),
            None => Err(no_home()),
        }
    } else {
        Ok(encode_utf8(raw))
    }
}

/// The path that a text names: it may not be empty and may not climb.
pub open spec fn file_path_of(raw: Seq<char>, home: Option<Seq<u8>>) -> Result<
    Seq<u8>,
    ErrorView,
> {
    match expanded(raw, home) {
        Err(e) => Err(e),
        Ok(p) => if p.len() == 0 {
            Err(ErrorView::InvalidParameters("wiki_root cannot be empty"@))
        } else if climbs(p) {
            Err(ErrorView::InvalidParameters("file wiki_root must not contain `..`"@))
        } else {
            Ok(p)
        },
    }
}

/// The path under the file root `root` that a text names: a relative one is
/// seen from the root, an absolute one must lie under it. It is taken as a text
/// before it is held against the root, so nothing lies under a root that is none.
pub open spec fn resolved_file(
    root: Seq<u8>,
    raw: Seq<char>,
    home: Option<Seq<u8>>,
) -> Result<Seq<u8>, ErrorView> {
    let t = trim(raw);
    let named = if t.len() == 0 {
        Ok(root)
    } else {
        match expanded(t, home) {
            Err(e) => Err(e),
            Ok(p) => Ok(join(root, p)),
        }
    };
    match named {
        Err(e) => Err(e),
        Ok(n) => match file_path_of(lossy(n), home) {
            Err(e) => Err(e),
            Ok(p) => if lies_under(p, root) {
                Ok(p)
            } else {
                Err(ErrorView::InvalidParameters("path must be under file root "@ + lossy(root)))
            },
        },
    }
}

/// The workspace root that a text names.
pub open spec fn workspace_root_of(raw: Seq<char>) -> Result<RootView, ErrorView> {
    match normal_root(raw) {
        Ok(r) => Ok(RootView::Workspace(r)),
        Err(e) => Err(ErrorView::InvalidParameters(e)),
    }
}

/// The file root that a text names.
pub open spec fn file_root_of(raw: Seq<char>, home: Option<Seq<u8>>) -> Result<
    RootView,
    ErrorView,
> {
    match file_path_of(raw, home) {
        Ok(p) => Ok(RootView::File(p)),
        Err(e) => Err(e),
    }
}

/// The root that a setting names: by its prefix, or else a file root where it
/// begins like an absolute path, and a workspace root otherwise.
pub open spec fn configured_root(raw: Seq<char>, home: Option<Seq<u8>>) -> Result<
    RootView,
    ErrorView,
> {
    let t = trim(raw);
    if t.len() == 0 {
        Err(ErrorView::InvalidParameters("wiki_root cannot be empty"@))
    } else if starts_with(t, WORKSPACE_ROOT_PREFIX@) {
        workspace_root_of(t.skip(WORKSPACE_ROOT_PREFIX@.len() as int))
    } else if starts_with(t, FILE_ROOT_PREFIX@) {
        file_root_of(t.skip(FILE_ROOT_PREFIX@.len() as int), home)
    } else if starts_with(t, "/"@) || starts_with(t, "~/"@) {
        file_root_of(t, home)
    } else {
        workspace_root_of(t)
    }
}

/// Where the first name of a text ends.
pub open spec fn first_end(s: Seq<char>, i: int) -> int
    decreases s.len() - i,
{
    if 0 <= i < s.len() && s[i] != '/' {
        first_end(s, i + 1)
    } else {
        i
    }
}

/// The first directory of a path relative to a root, where it is one whose
/// documents are indexed.
pub open spec fn top_level(relative: Seq<char>) -> Option<Seq<char>> {
    let r = strip_leading(relative, '/');
    let first = r.subrange(0, first_end(r, 0));
    if starts_with(r, "schema/entities/"@) {
        Some("schema/entities"@)
    } else if starts_with(r, "schema/relations/"@) {
        Some("schema/relations"@)
    } else if first == "notes"@ {
        Some("notes"@)
    } else if first == "sources"@ {
        Some("sources"@)
    } else if first == "summaries"@ {
        Some("summaries"@)
    } else if first == "entities"@ {
        Some("entities"@)
    } else if first == "relations"@ {
        Some("relations"@)
    } else {
        None
    }
}

/// A path as the user names it, relative to a file root, with slashes.
pub open spec fn relative_name(root: Seq<u8>, path: Seq<char>, home: Option<Seq<u8>>) -> Option<
    Seq<char>,
> {
    match file_path_of(path, home) {
        Err(_) => None,
        Ok(p) => match relative_to(p, root) {
            Some(rel) => Some(with_slashes(rel)),
            None => None,
        },
    }
}

/// Whether a path lies under a root.
pub open spec fn root_contains(
    root: RootView,
    path: Seq<char>,
    home: Option<Seq<u8>>,
) -> bool {
    match root {
        RootView::Workspace(r) => {
            let p = normal_path(path);
            let base = strip_trailing(r, '/');
            p == base || starts_with(p, base + "/"@)
        },
        RootView::File(r) => match file_path_of(path, home) {
            Ok(p) => lies_under(p, r),
            Err(_) => false,
        },
    }
}

/// Whether the document at `path` belongs to the index of the wiki at a root.
pub open spec fn root_indexes(root: RootView, path: Seq<char>, home: Option<Seq<u8>>) -> bool {
    match root {
        RootView::Workspace(r) => indexable(path, r),
        RootView::File(r) => match relative_name(r, path, home) {
            Some(rel) => ends_with(rel, ".md"@) && !contains_text(rel, ".."@) && top_level(
                rel,
            ) is Some,
            None => false,
        },
    }
}

/// The prefix of the paths that a synchronization is confined to.
pub open spec fn root_prefix(
    root: RootView,
    path: Option<Seq<char>>,
    home: Option<Seq<u8>>,
) -> Result<Seq<char>, ErrorView> {
    match root {
        RootView::Workspace(r) => {
            let p = normal_path(
                match path {
                    Some(x) => x,
                    None => r,
                },
            );
            if root_contains(root, p, home) {
                Ok(p)
            } else {
                Err(ErrorView::InvalidParameters("path must be under workspace root "@ + r))
            }
        },
        RootView::File(r) => match resolved_file(
            r,
            match path {
                Some(x) => x,
                None => ""@,
            },
            home,
        ) {
            Ok(p) => Ok(with_slashes(p)),
            Err(e) => Err(e),
        },
    }
}

/// The path of the document that a call asks to read.
pub open spec fn root_read_path(
    root: RootView,
    raw: Seq<char>,
    home: Option<Seq<u8>>,
) -> Result<Seq<char>, ErrorView> {
    match root {
        RootView::Workspace(_) => Ok(normal_path(raw)),
        RootView::File(r) => match resolved_file(r, raw, home) {
            Ok(p) => Ok(with_slashes(p)),
            Err(e) => Err(e),
        },
    }
}

/// The fact that the document at `path` states, where it is a card of the wiki
/// at a root.
pub open spec fn root_card(
    root: RootView,
    path: Seq<char>,
    content: Seq<char>,
    home: Option<Seq<u8>>,
) -> Result<Option<CardView>, Seq<char>> {
    match root {
        RootView::Workspace(r) => card_at(path, content, r),
        RootView::File(r) => match file_path_of(path, home) {
            Err(e) => Err(error_message(e)),
            Ok(p) => match relative_to(p, r) {
                None => Err("relation card path is outside "@ + lossy(r)),
                Some(rel) => {
                    let name = with_slashes(rel);
                    if starts_with(name, "relations/"@) {
                        card_at("wiki/"@ + name, content, "wiki/"@)
                    } else {
                        Ok(None)
                    }
                },
            },
        },
    }
}

/// The name of a root's kind.
pub open spec fn root_kind(root: RootView) -> Seq<char> {
    match root {
        RootView::Workspace(_) => "workspace"@,
        RootView::File(_) => "file"@,
    }
}

/// A root as it is shown.
pub open spec fn root_shown(root: RootView) -> Seq<char> {
    match root {
        RootView::Workspace(r) => r,
        RootView::File(r) => with_slashes(r),
    }
}

/// A root as it is kept in the settings.
pub open spec fn root_setting(root: RootView) -> Seq<char> {
    match root {
        RootView::Workspace(r) => WORKSPACE_ROOT_PREFIX@ + r,
        RootView::File(r) => FILE_ROOT_PREFIX@ + with_slashes(r),
    }
}

/// `dirs::home_dir`, as the bytes of the path. It depends on the user and the
/// machine, so nothing is said of the result.
#[verifier::external_body]
pub(crate) fn home_dir() -> (r: Option<Vec<u8>>) {
    dirs::home_dir().map(|p| p.into_os_string().into_encoded_bytes())
}

/// A path in which a leading `~` stands for the home directory.
pub fn expand_home_in(raw: &[char], home: Option<&[u8]>) -> (r: Result<Vec<u8>, ToolError>)
    ensures
        path_outcome(r) == expanded(raw@, opt_slice(home)),
{
    if spells(raw, "~") {
        return match home {
            Some(h) => Ok(slice_to_vec(h)),
            None => Err(ToolError::InvalidParameters("home directory not found".to_owned())),
        };
    }
    if begins_with(raw, "~/") {
        let rest = behind(raw, "~/");
        return match home {
            Some(h) => {
                let rest = chars_bytes(rest);
                Ok(path_join(h, rest.as_slice()))
            },
            None => Err(ToolError::InvalidParameters("home directory not found".to_owned())),
        };
    }
    Ok(chars_bytes(raw))
}

/// What stands behind the text `pat` at the front of `s`.
pub fn behind<'a>(s: &'a [char], pat: &str) -> (r: &'a [char])
    requires
        starts_with(s@, pat@),
    ensures
        r@ == s@.skip(pat@.len() as int),
{
    let k: usize = chars_of(pat).len();
    assert(s@.subrange(k as int, s@.len() as int) =~= s@.skip(k as int));
    slice_subrange(s, k, s.len())
}

/// The path that a text names.
pub fn normalize_file_path_in(raw: &[char], home: Option<&[u8]>) -> (r: Result<
    Vec<u8>,
    ToolError,
>)
    ensures
        path_outcome(r) == file_path_of(raw@, opt_slice(home)),
{
    let path = match expand_home_in(raw, home) {
        Ok(p) => p,
        Err(e) => {
            return Err(e);
        },
    };
    if path.len() == 0 {
        return Err(ToolError::InvalidParameters("wiki_root cannot be empty".to_owned()));
    }
    if path_climbs(path.as_slice()) {
        return Err(
            ToolError::InvalidParameters("file wiki_root must not contain `..`".to_owned()),
        );
    }
    Ok(path)
}

/// The path under the file root `root` that a text names.
pub fn resolve_file_path_in(root: &[u8], raw: &str, home: Option<&[u8]>) -> (r: Result<
    Vec<u8>,
    ToolError,
>)
    ensures
        path_outcome(r) == resolved_file(root@, raw@, opt_slice(home)),
{
    let raw_chars = chars_of(raw);
    let t = trimmed(raw_chars.as_slice());
    let named: Vec<u8> = if t.len() == 0 {
        slice_to_vec(root)
    } else {
        match expand_home_in(t, home) {
            Ok(p) => path_join(root, p.as_slice()),
            Err(e) => {
                return Err(e);
            },
        }
    };
    let text = lossy_text(named.as_slice());
    let text_chars = chars_of(text.as_str());
    let path = match normalize_file_path_in(text_chars.as_slice(), home) {
        Ok(p) => p,
        Err(e) => {
            return Err(e);
        },
    };
    if path_under(path.as_slice(), root) {
        Ok(path)
    } else {
        let shown = lossy_text(root);
        Err(ToolError::InvalidParameters(concat2("path must be under file root ", shown.as_str())))
    }
}

/// The first directory of a path relative to a root, where it is one whose
/// documents are indexed.
pub fn indexable_top_level(relative: &[char]) -> (r: Option<&'static str>)
    ensures
        opt_str(r) == top_level(relative@),
{
    let r = without_leading(relative, '/');
    if begins_with(r, "schema/entities/") {
        return Some("schema/entities");
    }
    if begins_with(r, "schema/relations/") {
        return Some("schema/relations");
    }
    let n: usize = r.len();
    let mut end: usize = 0;
    while end < n && r[end] != '/'
        invariant
            end <= n,
            n == r@.len(),
            first_end(r@, end as int) == first_end(r@, 0),
        decreases n - end,
    {
        end += 1;
    }
    let first = slice_subrange(r, 0, end);
    if spells(first, "notes") {
        Some("notes")
    } else if spells(first, "sources") {
        Some("sources")
    } else if spells(first, "summaries") {
        Some("summaries")
    } else if spells(first, "entities") {
        Some("entities")
    } else if spells(first, "relations") {
        Some("relations")
    } else {
        None
    }
}

impl WikiRoot {
    /// The root that is used where none is configured: the directory `wiki`
    /// in the base directory.
    pub fn default_file_root(base_dir: &[u8]) -> (r: Self)
        ensures
            r@ == RootView::File(join(base_dir@, encode_utf8("wiki"@))),
    {
        let name = text_bytes("wiki");
        WikiRoot::File { root: path_join(base_dir, name.as_slice()) }
    }

    /// The root that a setting names, for the user with this home directory.
    pub fn parse_configured_in(raw: &str, home: Option<&[u8]>) -> (r: Result<Self, ToolError>)
        ensures
            root_outcome(r) == configured_root(raw@, opt_slice(home)),
    {
        let raw_chars = chars_of(raw);
        let t = trimmed(raw_chars.as_slice());
        if t.len() == 0 {
            return Err(ToolError::InvalidParameters("wiki_root cannot be empty".to_owned()));
        }
        if begins_with(t, WORKSPACE_ROOT_PREFIX) {
            return Self::workspace_root(behind(t, WORKSPACE_ROOT_PREFIX));
        }
        if begins_with(t, FILE_ROOT_PREFIX) {
            return Self::file_root(behind(t, FILE_ROOT_PREFIX), home);
        }
        if begins_with(t, "/") || begins_with(t, "~/") {
            return Self::file_root(t, home);
        }
        Self::workspace_root(t)
    }

    /// The root that a setting names. A setting that begins with `~` is seen
    /// from the home directory of the user.
    pub fn parse_configured(raw: &str) -> (r: Result<Self, ToolError>)
        ensures
            exists|home: Option<Seq<u8>>|
                root_outcome(r) == #[trigger] configured_root(raw@, home),
    {
        let home = home_dir();
        Self::parse_configured_in(raw, as_slice_opt(&home))
    }

    fn workspace_root(raw: &[char]) -> (r: Result<Self, ToolError>)
        ensures
            root_outcome(r) == workspace_root_of(raw@),
    {
        let text = string_of(raw);
        match normalize_wiki_root(text.as_str()) {
            Ok(root) => Ok(WikiRoot::Workspace { root }),
            Err(e) => Err(ToolError::InvalidParameters(e)),
        }
    }

    fn file_root(raw: &[char], home: Option<&[u8]>) -> (r: Result<Self, ToolError>)
        ensures
            root_outcome(r) == file_root_of(raw@, opt_slice(home)),
    {
        match normalize_file_path_in(raw, home) {
            Ok(path) => Ok(WikiRoot::File { root: path }),
            Err(e) => Err(e),
        }
    }

    /// The name of the root's kind.
    pub fn kind(&self) -> (r: &'static str)
        ensures
            r@ == root_kind(self@),
    {
        match self {
            WikiRoot::Workspace { .. } => "workspace",
            WikiRoot::File { .. } => "file",
        }
    }

    /// The root as it is shown.
    pub fn display(&self) -> (r: String)
        ensures
            r@ == root_shown(self@),
    {
        match self {
            WikiRoot::Workspace { root } => root.clone(),
            WikiRoot::File { root } => path_to_string(root.as_slice()),
        }
    }

    /// The root as it is kept in the settings.
    pub fn setting_value(&self) -> (r: String)
        ensures
            r@ == root_setting(self@),
    {
        let shown = self.display();
        match self {
            WikiRoot::Workspace { .. } => concat2(WORKSPACE_ROOT_PREFIX, shown.as_str()),
            WikiRoot::File { .. } => concat2(FILE_ROOT_PREFIX, shown.as_str()),
        }
    }

    /// The prefix of the paths that a synchronization is confined to.
    pub fn resolve_prefix_in(&self, path: Option<&str>, home: Option<&[u8]>) -> (r: Result<
        String,
        ToolError,
    >)
        ensures
            text_outcome(r) == root_prefix(self@, opt_str(path), opt_slice(home)),
    {
        match self {
            WikiRoot::Workspace { root } => {
                let normalized = match path {
                    Some(p) => normalize_path(p),
                    None => normalize_path(root.as_str()),
                };
                if self.contains_path_in(normalized.as_str(), home) {
                    Ok(normalized)
                } else {
                    Err(
                        ToolError::InvalidParameters(
                            concat2("path must be under workspace root ", root.as_str()),
                        ),
                    )
                }
            },
            WikiRoot::File { root } => {
                let raw = match path {
                    Some(p) => p,
                    None => "",
                };
                match resolve_file_path_in(root.as_slice(), raw, home) {
                    Ok(p) => Ok(path_to_string(p.as_slice())),
                    Err(e) => Err(e),
                }
            },
        }
    }

    /// The prefix of the paths that a synchronization is confined to.
    pub fn resolve_prefix(&self, path: Option<&str>) -> (r: Result<String, ToolError>)
        ensures
            exists|home: Option<Seq<u8>>|
                text_outcome(r) == #[trigger] root_prefix(self@, opt_str(path), home),
    {
        let home = home_dir();
        self.resolve_prefix_in(path, as_slice_opt(&home))
    }

    /// The path of the document that a call asks to read.
    pub fn resolve_read_path_in(&self, raw: &str, home: Option<&[u8]>) -> (r: Result<
        String,
        ToolError,
    >)
        ensures
            text_outcome(r) == root_read_path(self@, raw@, opt_slice(home)),
    {
        match self {
            WikiRoot::Workspace { .. } => Ok(normalize_path(raw)),
            WikiRoot::File { root } => match resolve_file_path_in(root.as_slice(), raw, home) {
                Ok(p) => Ok(path_to_string(p.as_slice())),
                Err(e) => Err(e),
            },
        }
    }

    /// The path of the document that a call asks to read.
    pub fn resolve_read_path(&self, raw: &str) -> (r: Result<String, ToolError>)
        ensures
            exists|home: Option<Seq<u8>>|
                text_outcome(r) == #[trigger] root_read_path(self@, raw@, home),
    {
        let home = home_dir();
        self.resolve_read_path_in(raw, as_slice_opt(&home))
    }

    /// Whether a path lies under the root.
    pub fn contains_path_in(&self, path: &str, home: Option<&[u8]>) -> (r: bool)
        ensures
            r == root_contains(self@, path@, opt_slice(home)),
    {
        match self {
            WikiRoot::Workspace { root } => {
                let p = normalize_path(path);
                let p = chars_of(p.as_str());
                let root_chars = chars_of(root.as_str());
                let base = without_trailing(root_chars.as_slice(), '/');
                let mut below: Vec<char> = Vec::new();
                push_slice(&mut below, base);
                push_text(&mut below, "/");
                assert(below@ =~= base@ + "/"@);
                same_chars(p.as_slice(), base) || text_at(p.as_slice(), below.as_slice(), 0)
            },
            WikiRoot::File { root } => {
                let raw = chars_of(path);
                match normalize_file_path_in(raw.as_slice(), home) {
                    Ok(p) => path_under(p.as_slice(), root.as_slice()),
                    Err(_) => false,
                }
            },
        }
    }

    /// Whether a path lies under the root.
    pub fn contains_path(&self, path: &str) -> (r: bool)
        ensures
            exists|home: Option<Seq<u8>>| r == #[trigger] root_contains(self@, path@, home),
    {
        let home = home_dir();
        self.contains_path_in(path, as_slice_opt(&home))
    }

    /// Whether the document at `path` belongs to the index.
    pub fn is_indexable_path_in(&self, path: &str, home: Option<&[u8]>) -> (r: bool)
        ensures
            r == root_indexes(self@, path@, opt_slice(home)),
    {
        match self {
            WikiRoot::Workspace { root } => is_indexable_wiki_path_under(path, root.as_str()),
            WikiRoot::File { root } => {
                let raw = chars_of(path);
                let p = match normalize_file_path_in(raw.as_slice(), home) {
                    Ok(p) => p,
                    Err(_) => {
                        return false;
                    },
                };
                match path_relative(p.as_slice(), root.as_slice()) {
                    Some(rel) => {
                        let name = path_to_string(rel);
                        let chars = chars_of(name.as_str());
                        let rel = chars.as_slice();
                        finishes_with(rel, ".md") && !has_text(rel, "..") && indexable_top_level(
                            rel,
                        ).is_some()
                    },
                    None => false,
                }
            },
        }
    }

    /// Whether the document at `path` belongs to the index.
    pub fn is_indexable_path(&self, path: &str) -> (r: bool)
        ensures
            exists|home: Option<Seq<u8>>| r == #[trigger] root_indexes(self@, path@, home),
    {
        let home = home_dir();
        self.is_indexable_path_in(path, as_slice_opt(&home))
    }

    /// The fact that the document at `path` states, where it is a card of the wiki.
    pub fn parse_relation_card_in(&self, path: &str, content: &str, home: Option<&[u8]>) -> (r:
        Result<Option<RelationCard>, String>)
        ensures
            card_outcome(r) == root_card(self@, path@, content@, opt_slice(home)),
    {
        match self {
            WikiRoot::Workspace { root } => parse_relation_card_under(
                path,
                content,
                root.as_str(),
            ),
            WikiRoot::File { root } => {
                let raw = chars_of(path);
                let p = match normalize_file_path_in(raw.as_slice(), home) {
                    Ok(p) => p,
                    Err(e) => {
                        return Err(e.message());
                    },
                };
                match path_relative(p.as_slice(), root.as_slice()) {
                    None => {
                        let shown = lossy_text(root.as_slice());
                        Err(concat2("relation card path is outside ", shown.as_str()))
                    },
                    Some(rel) => {
                        let name = path_to_string(rel);
                        let chars = chars_of(name.as_str());
                        if !begins_with(chars.as_slice(), "relations/") {
                            return Ok(None);
                        }
                        let card_path = concat2("wiki/", name.as_str());
                        parse_relation_card_under(card_path.as_str(), content, "wiki/")
                    },
                }
            },
        }
    }

    /// The fact that the document at `path` states, where it is a card of the wiki.
    pub fn parse_relation_card(&self, path: &str, content: &str) -> (r: Result<
        Option<RelationCard>,
        String,
    >)
        ensures
            exists|home: Option<Seq<u8>>|
                card_outcome(r) == #[trigger] root_card(self@, path@, content@, home),
    {
        let home = home_dir();
        self.parse_relation_card_in(path, content, as_slice_opt(&home))
    }
}

/// What stands in front begins the whole, and what is behind it is the rest.
proof fn lemma_front(a: Seq<char>, b: Seq<char>)
    ensures
        starts_with(a + b, a),
        (a + b).skip(a.len() as int) == b,
{
    assert((a + b).subrange(0, a.len() as int) =~= a);
    assert((a + b).skip(a.len() as int) =~= b);
}

/// A root in the workspace that was kept in the settings is read back as it
/// was, where it does not begin with white space.
pub proof fn law_workspace_setting_round_trip(
    raw: Seq<char>,
    home: Option<Seq<u8>>,
    later: Option<Seq<u8>>,
)
    requires
        configured_root(raw, home) matches Ok(RootView::Workspace(r)) && !is_space(r.first()),
    ensures
        configured_root(root_setting(configured_root(raw, home)->Ok_0), later) == configured_root(
            raw,
            home,
        ),
{
    let root = configured_root(raw, home)->Ok_0;
    let r = root->Workspace_0;
    let t = trim(raw);
    let named = if starts_with(t, WORKSPACE_ROOT_PREFIX@) {
        t.skip(WORKSPACE_ROOT_PREFIX@.len() as int)
    } else {
        t
    };
    assert(normal_root(named) == Ok::<Seq<char>, Seq<char>>(r));
    law_normal_root_is_stable(named);
    law_normal_root_form(named);
    reveal_strlit("workspace:");
    let setting = root_setting(root);
    lemma_front(WORKSPACE_ROOT_PREFIX@, r);
    assert(setting.first() == 'w');
    assert(setting.last() == '/') by {
        assert(r.len() > 0) by {
            lemma_root_not_empty(named);
        }
    }
    lemma_trim_clean(setting);
}

proof fn lemma_root_not_empty(raw: Seq<char>)
    requires
        normal_root(raw) is Ok,
    ensures
        normal_root(raw)->Ok_0.len() > 0,
{
    reveal_strlit("/");
}

/// A root in the file system that was kept in the settings is read back as it
/// was, where it is a text that holds no backslash, does not end with white space
/// and does not itself name a home directory.
pub proof fn law_file_setting_round_trip(
    raw: Seq<char>,
    home: Option<Seq<u8>>,
    later: Option<Seq<u8>>,
)
    requires
        configured_root(raw, home) matches Ok(RootView::File(p)) && valid_utf8(p) && !lossy(
            p,
        ).contains('\\') && !is_space(lossy(p).last()) && lossy(p) != "~"@ && !starts_with(
            lossy(p),
            "~/"@,
        ),
    ensures
        configured_root(root_setting(configured_root(raw, home)->Ok_0), later) == configured_root(
            raw,
            home,
        ),
{
    let root = configured_root(raw, home)->Ok_0;
    let p = root->File_0;
    let shown = lossy(p);
    assert(p.len() > 0 && !climbs(p));
    law_text_bytes_are_kept(p);
    assert(shown.len() > 0) by {
        if shown.len() == 0 {
            assert(encode_utf8(shown).len() == 0);
        }
    }
    lemma_replace_absent(shown, '\\', "/"@);
    reveal_strlit("workspace:");
    reveal_strlit("file:");
    reveal_strlit("~");
    reveal_strlit("~/");
    let setting = root_setting(root);
    assert(setting == FILE_ROOT_PREFIX@ + shown);
    lemma_front(FILE_ROOT_PREFIX@, shown);
    assert(setting.first() == 'f');
    assert(setting.last() == shown.last());
    lemma_trim_clean(setting);
    assert(!starts_with(setting, WORKSPACE_ROOT_PREFIX@)) by {
        if starts_with(setting, WORKSPACE_ROOT_PREFIX@) {
            assert(setting.subrange(0, 10)[0] == 'w');
        }
    }
    assert(expanded(shown, later) == Ok::<Seq<u8>, ErrorView>(p));
}

/// A root in the file system that was kept in the settings is read back as one that
/// is shown and kept in the settings alike, where what is shown of it is not empty,
/// does not end with white space, does not climb and does not itself name a home
/// directory. It may be another root where the path is no text or holds a
/// backslash.
pub proof fn law_file_setting_shows_the_same(
    raw: Seq<char>,
    home: Option<Seq<u8>>,
    later: Option<Seq<u8>>,
)
    requires
        configured_root(raw, home) matches Ok(RootView::File(p)) && {
            let shown = with_slashes(p);
            &&& shown.len() > 0
            &&& !is_space(shown.last())
            &&& shown != "~"@
            &&& !starts_with(shown, "~/"@)
            &&& !climbs(encode_utf8(shown))
        },
    ensures
        ({
            let root = configured_root(raw, home)->Ok_0;
            configured_root(root_setting(root), later) matches Ok(again) && {
                &&& root_kind(again) == root_kind(root)
                &&& root_shown(again) == root_shown(root)
                &&& root_setting(again) == root_setting(root)
            }
        }),
{
    let root = configured_root(raw, home)->Ok_0;
    let shown = with_slashes(root->File_0);
    reveal_strlit("workspace:");
    reveal_strlit("file:");
    reveal_strlit("/");
    assert("/"@ =~= seq!['/']);
    lemma_replace_one(lossy(root->File_0), '\\', '/');
    assert(!shown.contains('\\')) by {
        if shown.contains('\\') {
            let i = choose|i: int| 0 <= i < shown.len() && shown[i] == '\\';
            assert(shown[i] != '\\');
        }
    }
    lemma_replace_absent(shown, '\\', "/"@);
    law_texts_are_kept(shown);
    let setting = root_setting(root);
    lemma_front(FILE_ROOT_PREFIX@, shown);
    assert(setting.first() == 'f');
    assert(setting.last() == shown.last());
    lemma_trim_clean(setting);
    assert(!starts_with(setting, WORKSPACE_ROOT_PREFIX@)) by {
        if starts_with(setting, WORKSPACE_ROOT_PREFIX@) {
            assert(setting.subrange(0, 10)[0] == 'w');
        }
    }
    assert(encode_utf8(shown).len() > 0) by {
        if encode_utf8(shown).len() == 0 {
            assert(encode_utf8(shown) =~= encode_utf8(Seq::<char>::empty()));
            law_texts_are_kept(Seq::<char>::empty());
        }
    }
    assert(configured_root(setting, later) == Ok::<RootView, ErrorView>(
        RootView::File(encode_utf8(shown)),
    ));
}

/// A path that a call names under a file root does not leave it: it lies under
/// the root and does not climb.
pub proof fn law_resolved_files_stay_under_the_root(
    root: Seq<u8>,
    raw: Seq<char>,
    home: Option<Seq<u8>>,
)
    requires
        resolved_file(root, raw, home) is Ok,
    ensures
        lies_under(resolved_file(root, raw, home)->Ok_0, root),
        !climbs(resolved_file(root, raw, home)->Ok_0),
{
}

/// Every document that is indexed lies under its root, where a workspace root
/// has its normal form.
pub proof fn law_indexed_documents_lie_under_their_root(
    root: RootView,
    path: Seq<char>,
    home: Option<Seq<u8>>,
)
    requires
        root matches RootView::Workspace(r) ==> normal_root(r) == Ok::<Seq<char>, Seq<char>>(r),
        root_indexes(root, path, home),
    ensures
        root_contains(root, path, home),
{
    match root {
        RootView::Workspace(r) => {
            reveal_strlit("/");
            law_indexed_paths_stay_under_the_root(path, r);
            law_normal_root_form(r);
            lemma_root_not_empty(r);
            let n = normal_path(r);
            lemma_strip_trailing(n, '/');
            lemma_strip_trailing(r, '/');
            let base = strip_trailing(r, '/');
            assert(r =~= strip_trailing(n, '/').push('/'));
            assert(r.drop_last() =~= strip_trailing(n, '/'));
            assert(base == strip_trailing(strip_trailing(n, '/'), '/'));
            assert(base =~= strip_trailing(n, '/'));
            assert(base + "/"@ =~= r);
        },
        RootView::File(_) => {},
    }
}

/// The same in front of a text and of a pattern makes no difference to whether the
/// text begins with the pattern.
proof fn lemma_start_behind(front: Seq<char>, s: Seq<char>, pat: Seq<char>)
    ensures
        starts_with(front + s, front + pat) == starts_with(s, pat),
{
    let whole = front + s;
    let long = front + pat;
    if starts_with(whole, long) {
        assert forall|i: int| 0 <= i < pat.len() implies s[i] == pat[i] by {
            assert(whole.subrange(0, long.len() as int)[front.len() + i] == long[front.len() + i]);
        }
        assert(s.subrange(0, pat.len() as int) =~= pat);
    }
    if starts_with(s, pat) {
        assert(s.subrange(0, pat.len() as int) == pat);
        assert(whole.subrange(0, long.len() as int) =~= long);
    }
}

proof fn lemma_first_end(s: Seq<char>, i: int)
    requires
        0 <= i <= s.len(),
    ensures
        i <= first_end(s, i) <= s.len(),
        first_end(s, i) < s.len() ==> s[first_end(s, i)] == '/',
        forall|j: int| i <= j < first_end(s, i) ==> s[j] != '/',
    decreases s.len() - i,
{
    if i < s.len() && s[i] != '/' {
        lemma_first_end(s, i + 1);
    }
}

/// A document lies in a directory exactly where the first name of its path is that
/// of the directory, and its path does not end there.
proof fn lemma_first_name(s: Seq<char>, dir: Seq<char>)
    requires
        !dir.contains('/'),
    ensures
        starts_with(s, dir + "/"@) == (s.subrange(0, first_end(s, 0)) == dir && s.len()
            > dir.len()),
{
    reveal_strlit("/");
    lemma_first_end(s, 0);
    let e = first_end(s, 0);
    let pat = dir + "/"@;
    if starts_with(s, pat) {
        let front = s.subrange(0, pat.len() as int);
        assert(front[dir.len() as int] == '/');
        assert(s[dir.len() as int] == '/');
        assert forall|i: int| 0 <= i < dir.len() implies s[i] == dir[i] && s[i] != '/' by {
            assert(front[i] == pat[i]);
            assert(dir.contains(dir[i]));
        }
        assert(e == dir.len()) by {
            if e < dir.len() {
                assert(s[e] == '/');
            }
        }
        assert(s.subrange(0, e) =~= dir);
    }
    if s.subrange(0, e) == dir && s.len() > dir.len() {
        assert(e == dir.len());
        assert forall|i: int| 0 <= i < pat.len() implies s[i] == pat[i] by {
            if i < dir.len() {
                assert(s.subrange(0, e)[i] == dir[i]);
            }
        }
        assert(s.subrange(0, pat.len() as int) =~= pat);
    }
}

/// Of a Markdown document's relative path, the first directory is one whose
/// documents are indexed exactly where the path lies in such a directory of the
/// wiki in the workspace.
proof fn lemma_top_level(rel: Seq<char>)
    requires
        rel.len() > 0,
        rel.first() != '/',
        ends_with(rel, ".md"@),
    ensures
        top_level(rel) is Some <==> in_indexed_dir("wiki/"@ + rel, "wiki/"@),
{
    lemma_strip_leading(rel, '/');
    assert(strip_leading(rel, '/') == rel);
    reveal_strlit(".md");
    let w = "wiki/"@;
    lemma_start_behind(w, rel, "notes/"@);
    lemma_start_behind(w, rel, "sources/"@);
    lemma_start_behind(w, rel, "summaries/"@);
    lemma_start_behind(w, rel, "entities/"@);
    lemma_start_behind(w, rel, "relations/"@);
    lemma_start_behind(w, rel, "schema/entities/"@);
    lemma_start_behind(w, rel, "schema/relations/"@);
    lemma_dir(rel, "notes"@, "notes/"@);
    lemma_dir(rel, "sources"@, "sources/"@);
    lemma_dir(rel, "summaries"@, "summaries/"@);
    lemma_dir(rel, "entities"@, "entities/"@);
    lemma_dir(rel, "relations"@, "relations/"@);
}

proof fn lemma_dir(rel: Seq<char>, dir: Seq<char>, pat: Seq<char>)
    requires
        ends_with(rel, ".md"@),
        (dir == "notes"@ && pat == "notes/"@) || (dir == "sources"@ && pat == "sources/"@) || (dir
            == "summaries"@ && pat == "summaries/"@) || (dir == "entities"@ && pat == "entities/"@)
            || (dir == "relations"@ && pat == "relations/"@),
    ensures
        starts_with(rel, pat) == (rel.subrange(0, first_end(rel, 0)) == dir),
{
    reveal_strlit("/");
    reveal_strlit(".md");
    reveal_strlit("notes");
    reveal_strlit("notes/");
    reveal_strlit("sources");
    reveal_strlit("sources/");
    reveal_strlit("summaries");
    reveal_strlit("summaries/");
    reveal_strlit("entities");
    reveal_strlit("entities/");
    reveal_strlit("relations");
    reveal_strlit("relations/");
    assert(dir + "/"@ =~= pat);
    assert(!dir.contains('/'));
    lemma_first_name(rel, dir);
    lemma_first_end(rel, 0);
    if rel.subrange(0, first_end(rel, 0)) == dir {
        assert(rel.len() >= dir.len());
        if rel.len() == dir.len() {
            assert(rel =~= dir);
            assert(rel.subrange(rel.len() - 3, rel.len() as int) == ".md"@);
            assert(rel[rel.len() - 1] == ".md"@[2]);
            assert(dir.last() == 's');
        }
    }
}

/// The byte of a slash is the slash's encoding.
proof fn lemma_slash_bytes(s: Seq<char>)
    ensures
        encode_utf8("/"@) == seq![SLASH],
        s.len() > 0 && s.first() == '/' ==> encode_utf8(s).len() > 0 && encode_utf8(s).first()
            == SLASH,
{
    reveal_strlit("/");
    assert("/"@ =~= seq!['/']);
    is_ascii_chars_encode_utf8("/"@);
    assert(encode_utf8("/"@) =~= seq![SLASH]);
    if s.len() > 0 && s.first() == '/' {
        assert(s =~= "/"@ + s.drop_first());
        lemma_encode_concat("/"@, s.drop_first());
    }
}

/// The root of the default wiki is in its normal form.
proof fn lemma_wiki_root_is_normal()
    ensures
        normal_root(WIKI_ROOT@) == Ok::<Seq<char>, Seq<char>>("wiki/"@),
{
    reveal_strlit("wiki/");
    reveal_strlit("/");
    reveal_strlit("..");
    let w = "wiki/"@;
    lemma_trim_clean(w);
    lemma_strip_leading(w, '/');
    assert(strip_leading(w, '/') == w);
    lemma_replace_absent(w, '\\', "/"@);
    assert(normal_path(w) == w);
    assert(!starts_with(w, "/"@)) by {
        if starts_with(w, "/"@) {
            assert(w.subrange(0, 1)[0] == '/');
        }
    }
    assert(!contains_text(w, ".."@)) by {
        if contains_text(w, ".."@) {
            let i = choose|i: int| occurs_at(w, ".."@, i);
            assert(w.subrange(i, i + 2)[0] == '.');
            assert(w[i] == '.');
        }
    }
    let k = w.drop_last();
    assert(k.last() == 'i');
    assert(strip_trailing(k, '/') == k);
    assert(strip_trailing(w, '/') == k);
    assert(k + "/"@ =~= w);
}

/// Behind `wiki/` a path holds two dots in a row, and ends like a Markdown
/// document, where it does so alone.
proof fn lemma_behind_wiki(rel: Seq<char>)
    requires
        rel.len() > 0,
    ensures
        contains_text("wiki/"@ + rel, ".."@) == contains_text(rel, ".."@),
        ends_with("wiki/"@ + rel, ".md"@) == ends_with(rel, ".md"@),
{
    reveal_strlit("wiki/");
    reveal_strlit("..");
    reveal_strlit(".md");
    let n = "wiki/"@ + rel;
    if contains_text(n, ".."@) {
        let i = choose|i: int| occurs_at(n, ".."@, i);
        assert(n.subrange(i, i + 2)[0] == '.');
        assert(n[i] == '.');
        assert(i >= 5);
        assert(rel.subrange(i - 5, i - 3) =~= n.subrange(i, i + 2));
        assert(occurs_at(rel, ".."@, i - 5));
    }
    if contains_text(rel, ".."@) {
        let i = choose|i: int| occurs_at(rel, ".."@, i);
        assert(n.subrange(i + 5, i + 7) =~= rel.subrange(i, i + 2));
        assert(occurs_at(n, ".."@, i + 5));
    }
    let e = n.len() - 3;
    if ends_with(n, ".md"@) {
        let end = n.subrange(e, n.len() as int);
        assert(end[0] == '.' && end[1] == 'm' && end[2] == 'd');
        assert(n[e] == '.' && n[e + 1] == 'm');
        assert(e >= 5);
        assert(rel.subrange(e - 5, rel.len() as int) =~= end);
    }
    if ends_with(rel, ".md"@) {
        assert(n.subrange(e, n.len() as int) =~= rel.subrange(rel.len() - 3, rel.len() as int));
    }
}

/// A wiki in the file system indexes the same documents as one in the workspace: a
/// document under an absolute root that does not climb is indexed exactly where the
/// document of the same relative path is under `wiki/`. The relative path is made
/// of names only, holds no backslash and does not end with white space.
pub proof fn law_file_and_workspace_roots_index_alike(
    root: Seq<char>,
    rel: Seq<char>,
    home: Option<Seq<u8>>,
)
    requires
        root.len() > 0,
        root.first() == '/',
        !climbs(encode_utf8(root)),
        is_plain(encode_utf8(rel)),
        !rel.contains('\\'),
        !is_space(rel.last()),
    ensures
        root_indexes(RootView::File(encode_utf8(root)), root + "/"@ + rel, home) == indexable(
            "wiki/"@ + rel,
            WIKI_ROOT@,
        ),
{
    reveal_strlit("/");
    reveal_strlit("wiki/");
    reveal_strlit("~");
    reveal_strlit("~/");
    let r = encode_utf8(root);
    let m = encode_utf8(rel);
    let path = root + "/"@ + rel;
    lemma_encode_concat(root + "/"@, rel);
    lemma_encode_concat(root, "/"@);
    lemma_slash_bytes(root);
    assert(encode_utf8(path) =~= r.push(SLASH) + m);
    law_plain_paths_are_kept(r, m);
    assert(path.first() == '/');
    assert(!starts_with(path, "~/"@)) by {
        if starts_with(path, "~/"@) {
            assert(path.subrange(0, 2)[0] == '~');
        }
    }
    assert(file_path_of(path, home) == Ok::<Seq<u8>, ErrorView>(encode_utf8(path)));
    law_texts_are_kept(rel);
    lemma_replace_absent(rel, '\\', "/"@);
    assert(relative_name(r, path, home) == Some(rel));
    // The same document in the workspace.
    assert(rel.len() > 0) by {
        if rel.len() == 0 {
            assert(m.len() == 0);
            assert(name_end(m, 0) == 0);
        }
    }
    assert(rel.first() != '/') by {
        if rel.first() == '/' {
            lemma_slash_bytes(rel);
            assert(name_end(m, 0) == 0);
            assert(m.subrange(0, 0).len() == 0);
        }
    }
    let n = "wiki/"@ + rel;
    lemma_trim_clean(n);
    lemma_strip_leading(n, '/');
    assert(strip_leading(n, '/') == n);
    assert(!n.contains('\\')) by {
        if n.contains('\\') {
            let i = choose|i: int| 0 <= i < n.len() && n[i] == '\\';
            if i >= 5 {
                assert(rel[i - 5] == '\\');
            }
        }
    }
    lemma_replace_absent(n, '\\', "/"@);
    assert(normal_path(n) == n);
    lemma_wiki_root_is_normal();
    lemma_behind_wiki(rel);
    if ends_with(rel, ".md"@) {
        lemma_top_level(rel);
    }
}

/// A wiki in the file system indexes no absolute path that does not lie under its
/// root.
pub proof fn law_no_path_outside_the_root_is_indexed(
    root: Seq<u8>,
    path: Seq<char>,
    home: Option<Seq<u8>>,
)
    requires
        path.len() > 0,
        path.first() == '/',
        !lies_under(encode_utf8(path), root),
    ensures
        !root_indexes(RootView::File(root), path, home),
{
    reveal_strlit("~");
    reveal_strlit("~/");
    assert(!starts_with(path, "~/"@)) by {
        if starts_with(path, "~/"@) {
            assert(path.subrange(0, 2)[0] == '~');
        }
    }
}

/// A setting that begins with `workspace:` names a root in the workspace, and one that
/// begins with `file:`, a slash or the home directory names a path of the file
/// system. Any other names a root in the workspace, and a blank one names none.
pub proof fn law_settings_name_roots(raw: Seq<char>, rest: Seq<char>, home: Option<Seq<u8>>)
    ensures
        trim(raw).len() == 0 ==> configured_root(raw, home) is Err,
        trim(raw) == "workspace:"@ + rest ==> match normal_root(rest) {
            Ok(r) => configured_root(raw, home) == Ok::<RootView, ErrorView>(
                RootView::Workspace(r),
            ),
            Err(e) => configured_root(raw, home) == Err::<RootView, ErrorView>(
                ErrorView::InvalidParameters(e),
            ),
        },
        trim(raw) == "file:"@ + rest ==> match file_path_of(rest, home) {
            Ok(p) => configured_root(raw, home) == Ok::<RootView, ErrorView>(RootView::File(p)),
            Err(e) => configured_root(raw, home) == Err::<RootView, ErrorView>(e),
        },
        trim(raw) == "/"@ + rest || trim(raw) == "~/"@ + rest ==> match file_path_of(
            trim(raw),
            home,
        ) {
            Ok(p) => configured_root(raw, home) == Ok::<RootView, ErrorView>(RootView::File(p)),
            Err(e) => configured_root(raw, home) == Err::<RootView, ErrorView>(e),
        },
        trim(raw).len() > 0 && trim(raw)[0] as int != 47 && trim(raw)[0] as int != 126
            && trim(raw)[0] != 'w' && trim(raw)[0] != 'f' ==> match normal_root(trim(raw)) {
            Ok(r) => configured_root(raw, home) == Ok::<RootView, ErrorView>(
                RootView::Workspace(r),
            ),
            Err(e) => configured_root(raw, home) == Err::<RootView, ErrorView>(
                ErrorView::InvalidParameters(e),
            ),
        },
        trim(raw).len() > 0 && !starts_with(trim(raw), "workspace:"@) && !starts_with(
            trim(raw),
            "file:"@,
        ) && (trim(raw)[0] == 'w' || trim(raw)[0] == 'f') ==> match normal_root(trim(raw)) {
            Ok(r) => configured_root(raw, home) == Ok::<RootView, ErrorView>(
                RootView::Workspace(r),
            ),
            Err(e) => configured_root(raw, home) == Err::<RootView, ErrorView>(
                ErrorView::InvalidParameters(e),
            ),
        },
{
    let t = trim(raw);
    reveal_strlit("workspace:");
    reveal_strlit("file:");
    reveal_strlit("/");
    reveal_strlit("~/");
    lemma_front("workspace:"@, rest);
    lemma_front("file:"@, rest);
    lemma_front("/"@, rest);
    lemma_front("~/"@, rest);
    lemma_first_char(t, "workspace:"@, 'w');
    lemma_first_char(t, "file:"@, 'f');
    lemma_first_char(t, "/"@, '/');
    lemma_first_char(t, "~/"@, '~');
}

proof fn lemma_first_char(s: Seq<char>, pat: Seq<char>, c: char)
    requires
        pat.len() > 0,
        pat[0] == c,
    ensures
        starts_with(s, pat) ==> s.len() > 0 && s[0] == c,
{
    if starts_with(s, pat) {
        assert(s.subrange(0, pat.len() as int)[0] == pat[0]);
    }
}

/// A tilde stands for the home directory, alone or in front of a slash, and nothing
/// else does.
pub proof fn law_tildes_stand_for_the_home(
    rest: Seq<char>,
    raw: Seq<char>,
    home: Seq<u8>,
    any: Option<Seq<u8>>,
)
    ensures
        expanded("~"@, Some(home)) == Ok::<Seq<u8>, ErrorView>(home),
        expanded("~/"@ + rest, Some(home)) == Ok::<Seq<u8>, ErrorView>(
            join(home, encode_utf8(rest)),
        ),
        expanded("~"@, None) == Err::<Seq<u8>, ErrorView>(
            ErrorView::InvalidParameters("home directory not found"@),
        ),
        expanded("~/"@ + rest, None) == Err::<Seq<u8>, ErrorView>(
            ErrorView::InvalidParameters("home directory not found"@),
        ),
        raw.len() == 0 || raw[0] as int != 126 ==> expanded(raw, any) == Ok::<Seq<u8>, ErrorView>(
            encode_utf8(raw),
        ),
        raw.len() > 1 && raw[1] as int != 47 ==> expanded(raw, any) == Ok::<Seq<u8>, ErrorView>(
            encode_utf8(raw),
        ),
{
    reveal_strlit("~");
    reveal_strlit("~/");
    lemma_front("~/"@, rest);
    assert("~/"@ + rest != "~"@) by {
        assert(("~/"@ + rest).len() > 1);
    }
    if starts_with(raw, "~/"@) {
        assert(raw.subrange(0, 2)[0] == '~');
        assert(raw.subrange(0, 2)[1] == '/');
    }
    if raw.len() > 0 && raw == "~"@ {
        assert(raw[0] == '~');
        assert(raw.len() == 1);
    }
}

/// A text names the path that it expands to, unless that is empty or climbs.
pub proof fn law_texts_name_paths(raw: Seq<char>, home: Option<Seq<u8>>)
    ensures
        match expanded(raw, home) {
            Err(e) => file_path_of(raw, home) == Err::<Seq<u8>, ErrorView>(e),
            Ok(p) => {
                &&& p.len() > 0 && !climbs(p) ==> file_path_of(raw, home) == Ok::<
                    Seq<u8>,
                    ErrorView,
                >(p)
                &&& p.len() == 0 ==> file_path_of(raw, home) == Err::<Seq<u8>, ErrorView>(
                    ErrorView::InvalidParameters("wiki_root cannot be empty"@),
                )
                &&& p.len() > 0 && climbs(p) ==> file_path_of(raw, home) == Err::<
                    Seq<u8>,
                    ErrorView,
                >(ErrorView::InvalidParameters("file wiki_root must not contain `..`"@))
            },
        },
{
}

/// A relative path of names only, asked for under an absolute root, is the root with
/// a slash and the path behind it; a blank one is the root.
pub proof fn law_plain_names_are_found_under_the_root(
    root: Seq<char>,
    raw: Seq<char>,
    home: Option<Seq<u8>>,
)
    requires
        is_absolute(encode_utf8(root)),
        encode_utf8(root).last() != 47,
        !climbs(encode_utf8(root)),
        root.len() > 0 && root[0] == '/',
    ensures
        trim(raw).len() == 0 ==> resolved_file(encode_utf8(root), raw, home) == Ok::<
            Seq<u8>,
            ErrorView,
        >(encode_utf8(root)),
        trim(raw).len() > 0 && trim(raw)[0] != '~' && is_plain(encode_utf8(trim(raw)))
            ==> resolved_file(encode_utf8(root), raw, home) == Ok::<Seq<u8>, ErrorView>(
            encode_utf8(root + "/"@ + trim(raw)),
        ),
{
    let t = trim(raw);
    let base = encode_utf8(root);
    law_texts_are_kept(root);
    law_tildes_stand_for_the_home(t, root, base, home);
    law_tildes_stand_for_the_home(t, t, base, home);
    assert(parts(base).take(parts(base).len() as int) =~= parts(base));
    if t.len() > 0 && t[0] != '~' && is_plain(encode_utf8(t)) {
        let more = encode_utf8(t);
        let whole = root + "/"@ + t;
        lemma_slash_bytes(root);
        lemma_encode_concat(root, "/"@);
        lemma_encode_concat(root + "/"@, t);
        assert(encode_utf8(whole) =~= base.push(SLASH) + more);
        law_plain_paths_are_kept(base, more);
        lemma_plain_not_absolute(more);
        assert(join(base, more) == encode_utf8(whole));
        law_texts_are_kept(whole);
        assert(whole[0] == '/');
        law_tildes_stand_for_the_home(t, whole, base, home);
    }
}

proof fn lemma_plain_not_absolute(s: Seq<u8>)
    requires
        is_plain(s),
    ensures
        !is_absolute(s),
{
    if is_absolute(s) {
        assert(name_end(s, 0) == 0);
        assert(s.subrange(0, 0).len() == 0);
    }
}

/// A workspace root holds its own directory and everything behind a slash after it,
/// and nothing else.
pub proof fn law_workspace_roots_hold_their_directory(
    root: Seq<char>,
    path: Seq<char>,
    rest: Seq<char>,
    home: Option<Seq<u8>>,
)
    ensures
        normal_path(path) == strip_trailing(root, '/') ==> root_contains(
            RootView::Workspace(root),
            path,
            home,
        ),
        normal_path(path) == strip_trailing(root, '/') + "/"@ + rest ==> root_contains(
            RootView::Workspace(root),
            path,
            home,
        ),
        normal_path(path).len() < strip_trailing(root, '/').len() ==> !root_contains(
            RootView::Workspace(root),
            path,
            home,
        ),
        normal_path(path).len() >= strip_trailing(root, '/').len() && normal_path(path).take(
            strip_trailing(root, '/').len() as int,
        ) != strip_trailing(root, '/') ==> !root_contains(RootView::Workspace(root), path, home),
        normal_path(path).len() > strip_trailing(root, '/').len() && normal_path(
            path,
        )[strip_trailing(root, '/').len() as int] as int != 47 ==> !root_contains(
            RootView::Workspace(root),
            path,
            home,
        ),
{
    let p = normal_path(path);
    let base = strip_trailing(root, '/');
    reveal_strlit("/");
    lemma_front(base + "/"@, rest);
    let below = base + "/"@;
    if starts_with(p, below) {
        assert(p.subrange(0, below.len() as int)[base.len() as int] == '/');
        assert(p.take(base.len() as int) =~= base) by {
            assert forall|i: int| 0 <= i < base.len() implies p[i] == base[i] by {
                assert(p.subrange(0, below.len() as int)[i] == below[i]);
            }
        }
    }
    if p == base {
        assert(p.take(base.len() as int) =~= base);
    }
}

/// A file root holds the paths that begin with its components.
pub proof fn law_file_roots_hold_their_directory(
    root: Seq<u8>,
    path: Seq<char>,
    home: Option<Seq<u8>>,
)
    ensures
        root_contains(RootView::File(root), path, home) == (file_path_of(path, home) matches Ok(p)
            && parts(root).len() <= parts(p).len() && (forall|i: int|
            0 <= i < parts(root).len() ==> parts(p)[i] == parts(root)[i])),
{
    if file_path_of(path, home) is Ok {
        let p = file_path_of(path, home)->Ok_0;
        let front = parts(p).take(parts(root).len() as int);
        if lies_under(p, root) {
            assert forall|i: int| 0 <= i < parts(root).len() implies parts(p)[i] == parts(
                root,
            )[i] by {
                assert(front[i] == parts(root)[i]);
            }
        }
        if parts(root).len() <= parts(p).len() && (forall|i: int|
            0 <= i < parts(root).len() ==> parts(p)[i] == parts(root)[i]) {
            assert(front =~= parts(root));
        }
    }
}

/// A synchronization is confined to the path that is given, or to the whole root. A
/// path outside the root is refused.
pub proof fn law_prefixes_lie_under_the_root(
    root: Seq<char>,
    dir: Seq<u8>,
    path: Seq<char>,
    home: Option<Seq<u8>>,
)
    ensures
        root_contains(RootView::Workspace(root), normal_path(path), home) ==> root_prefix(
            RootView::Workspace(root),
            Some(path),
            home,
        ) == Ok::<Seq<char>, ErrorView>(normal_path(path)),
        !root_contains(RootView::Workspace(root), normal_path(path), home) ==> root_prefix(
            RootView::Workspace(root),
            Some(path),
            home,
        ) == Err::<Seq<char>, ErrorView>(
            ErrorView::InvalidParameters("path must be under workspace root "@ + root),
        ),
        root_prefix(RootView::Workspace(root), None, home) == root_prefix(
            RootView::Workspace(root),
            Some(root),
            home,
        ),
        root_prefix(RootView::File(dir), None, home) == root_prefix(
            RootView::File(dir),
            Some(""@),
            home,
        ),
        match resolved_file(dir, path, home) {
            Ok(p) => root_prefix(RootView::File(dir), Some(path), home) == Ok::<
                Seq<char>,
                ErrorView,
            >(with_slashes(p)),
            Err(e) => root_prefix(RootView::File(dir), Some(path), home) == Err::<
                Seq<char>,
                ErrorView,
            >(e),
        },
        root_read_path(RootView::File(dir), path, home) == root_prefix(
            RootView::File(dir),
            Some(path),
            home,
        ),
        root_read_path(RootView::Workspace(root), path, home) == Ok::<Seq<char>, ErrorView>(
            normal_path(path),
        ),
{
}

/// Under a file root a document of the directory `relations` is a card, read as the
/// one that lies there in the workspace, and other documents are none. Under a
/// workspace root cards are those of that root.
pub proof fn law_cards_lie_among_the_relations(
    root: Seq<char>,
    dir: Seq<u8>,
    path: Seq<char>,
    content: Seq<char>,
    rest: Seq<char>,
    home: Option<Seq<u8>>,
)
    ensures
        root_card(RootView::Workspace(root), path, content, home) == card_at(path, content, root),
        match file_path_of(path, home) {
            Err(e) => root_card(RootView::File(dir), path, content, home) == Err::<
                Option<CardView>,
                Seq<char>,
            >(error_message(e)),
            Ok(p) => match relative_to(p, dir) {
                None => root_card(RootView::File(dir), path, content, home) is Err,
                Some(rel) => {
                    &&& with_slashes(rel) == "relations/"@ + rest ==> root_card(
                        RootView::File(dir),
                        path,
                        content,
                        home,
                    ) == card_at("wiki/relations/"@ + rest, content, "wiki/"@)
                    &&& !starts_with(with_slashes(rel), "relations/"@) ==> root_card(
                        RootView::File(dir),
                        path,
                        content,
                        home,
                    ) == Ok::<Option<CardView>, Seq<char>>(None)
                },
            },
        },
{
    lemma_front("relations/"@, rest);
    reveal_strlit("wiki/relations/");
    reveal_strlit("wiki/");
    reveal_strlit("relations/");
    assert("wiki/"@ + ("relations/"@ + rest) =~= "wiki/relations/"@ + rest);
}

/// How roots are shown and kept in the settings.
pub proof fn law_roots_are_shown(root: Seq<char>, dir: Seq<u8>)
    ensures
        root_kind(RootView::Workspace(root)) == "workspace"@,
        root_kind(RootView::File(dir)) == "file"@,
        root_shown(RootView::Workspace(root)) == root,
        root_shown(RootView::File(dir)) == with_slashes(dir),
        root_setting(RootView::Workspace(root)) == "workspace:"@ + root,
        root_setting(RootView::File(dir)) == "file:"@ + with_slashes(dir),
{
}

/// The first directory of a path is named for each of the seven directories whose
/// documents are indexed, whatever slashes stand in front.
pub proof fn law_first_directories(rest: Seq<char>)
    ensures
        top_level("schema/entities/"@ + rest) == Some("schema/entities"@),
        top_level("schema/relations/"@ + rest) == Some("schema/relations"@),
        top_level("notes/"@ + rest) == Some("notes"@),
        top_level("sources/"@ + rest) == Some("sources"@),
        top_level("summaries/"@ + rest) == Some("summaries"@),
        top_level("entities/"@ + rest) == Some("entities"@),
        top_level("relations/"@ + rest) == Some("relations"@),
        top_level("/"@ + rest) == top_level(rest),
{
    lemma_directories_apart();
    reveal_strlit("/");
    reveal_strlit("notes/");
    reveal_strlit("sources/");
    reveal_strlit("summaries/");
    reveal_strlit("entities/");
    reveal_strlit("relations/");
    reveal_strlit("schema/entities/");
    reveal_strlit("schema/relations/");
    reveal_strlit("notes");
    reveal_strlit("sources");
    reveal_strlit("summaries");
    reveal_strlit("entities");
    reveal_strlit("relations");
    assert("notes"@ + "/"@ =~= "notes/"@);
    assert("sources"@ + "/"@ =~= "sources/"@);
    assert("summaries"@ + "/"@ =~= "summaries/"@);
    assert("entities"@ + "/"@ =~= "entities/"@);
    assert("relations"@ + "/"@ =~= "relations/"@);
    assert(!"notes"@.contains('/'));
    assert(!"sources"@.contains('/'));
    assert(!"summaries"@.contains('/'));
    assert(!"entities"@.contains('/'));
    assert(!"relations"@.contains('/'));
    lemma_first_directory("notes"@, rest);
    lemma_first_directory("sources"@, rest);
    lemma_first_directory("summaries"@, rest);
    lemma_first_directory("entities"@, rest);
    lemma_first_directory("relations"@, rest);
    lemma_front("schema/entities/"@, rest);
    lemma_front("schema/relations/"@, rest);
    let r = "schema/relations/"@ + rest;
    if starts_with(r, "schema/entities/"@) {
        assert(r.subrange(0, 16)[7] == 'e');
        assert(r[7] == 'r');
    }
    assert(("/"@ + rest).drop_first() =~= rest);
    assert(("/"@ + rest).first() == '/');
}

/// The first name of a path that begins with a directory is that of the directory.
proof fn lemma_first_directory(dir: Seq<char>, rest: Seq<char>)
    requires
        dir.len() > 1,
        !dir.contains('/'),
        dir[1] != 'c',
    ensures
        ({
            let r = dir + "/"@ + rest;
            &&& strip_leading(r, '/') == r
            &&& r.subrange(0, first_end(r, 0)) == dir
            &&& !starts_with(r, "schema/entities/"@)
            &&& !starts_with(r, "schema/relations/"@)
        }),
{
    let r = dir + "/"@ + rest;
    reveal_strlit("/");
    reveal_strlit("schema/entities/");
    reveal_strlit("schema/relations/");
    assert(dir.contains(dir[0]));
    assert(r[0] == dir[0] && r[1] == dir[1]);
    lemma_front(dir + "/"@, rest);
    lemma_first_name(r, dir);
    if starts_with(r, "schema/entities/"@) {
        assert(r.subrange(0, 16)[1] == 'c');
    }
    if starts_with(r, "schema/relations/"@) {
        assert(r.subrange(0, 17)[1] == 'c');
    }
}

proof fn lemma_directories_apart()
    ensures
        "notes"@ != "sources"@,
        "notes"@ != "summaries"@,
        "notes"@ != "entities"@,
        "notes"@ != "relations"@,
        "sources"@ != "summaries"@,
        "sources"@ != "entities"@,
        "sources"@ != "relations"@,
        "summaries"@ != "entities"@,
        "summaries"@ != "relations"@,
        "entities"@ != "relations"@,
{
    reveal_strlit("notes");
    reveal_strlit("sources");
    reveal_strlit("summaries");
    reveal_strlit("entities");
    reveal_strlit("relations");
    assert("entities"@.len() == 8);
    assert("notes"@.len() == 5);
    assert("relations"@.len() == 9);
    assert("relations"@[0] == 'r');
    assert("sources"@.len() == 7);
    assert("summaries"@.len() == 9);
    assert("summaries"@[0] == 's');
}

/// An absolute path that is asked for is refused where it does not lie under the root.
pub proof fn law_paths_outside_the_root_are_refused(
    root: Seq<u8>,
    raw: Seq<char>,
    home: Option<Seq<u8>>,
)
    requires
        trim(raw).len() > 0,
        trim(raw)[0] == '/',
        !climbs(encode_utf8(trim(raw))),
    ensures
        lies_under(encode_utf8(trim(raw)), root) ==> resolved_file(root, raw, home) == Ok::<
            Seq<u8>,
            ErrorView,
        >(encode_utf8(trim(raw))),
        !lies_under(encode_utf8(trim(raw)), root) ==> resolved_file(root, raw, home) == Err::<
            Seq<u8>,
            ErrorView,
        >(ErrorView::InvalidParameters("path must be under file root "@ + lossy(root))),
{
    let t = trim(raw);
    lemma_slash_bytes(t);
    law_tildes_stand_for_the_home(t, t, root, home);
    law_texts_are_kept(t);
}

} // verus!
