//! Paths of the local file system, by the rules of Unix: a path is a byte string,
//! made of names between slashes. A backslash, a colon or a drive's letter is a
//! part of a name like any other. Where a path is shown as a text, what is no
//! UTF-8 in it is replaced.

use vstd::prelude::*;
use vstd::slice::slice_subrange;

use crate::bytes::{lossy, lossy_text, push_bytes, same_bytes};
use crate::text::{chars_of, replace_char, replaced, string_of};
use crate::text::lemma_replace_one;

verus! {

/// The byte of a slash.
pub const SLASH: u8 = 0x2f;

/// The byte of a dot.
pub const DOT: u8 = 0x2e;

/// The byte of the letter `m`.
pub const LOWER_M: u8 = 0x6d;

/// The byte of the letter `d`.
pub const LOWER_D: u8 = 0x64;


/// One component of a path.
pub enum PartView {
    /// The root directory.
    Root,
    /// The current directory, at the beginning of a path.
    Current,
    /// The parent directory.
    Parent,
    /// A name.
    Name(Seq<u8>),
}

/// A component and the place where it stands in the path.
pub struct SpanView {
    pub part: PartView,
    pub start: int,
    pub end: int,
}

/// Where the name that begins at `i` ends.
pub open spec fn name_end(s: Seq<u8>, i: int) -> int
    decreases s.len() - i,
{
    if 0 <= i < s.len() && s[i] != SLASH {
        name_end(s, i + 1)
    } else {
        i
    }
}

/// A name ends at or behind its beginning.
pub proof fn lemma_name_end(s: Seq<u8>, i: int)
    requires
        0 <= i <= s.len(),
    ensures
        i <= name_end(s, i) <= s.len(),
        name_end(s, i) < s.len() ==> s[name_end(s, i)] == SLASH,
        forall|j: int| i <= j < name_end(s, i) ==> s[j] != SLASH,
    decreases s.len() - i,
{
    if i < s.len() && s[i] != SLASH {
        lemma_name_end(s, i + 1);
    }
}

/// The component that a name is. An empty name and a single dot are none.
pub open spec fn part_of(name: Seq<u8>) -> Option<PartView> {
    if name.len() == 0 || name == seq![DOT] {
        None
    } else if name == seq![DOT, DOT] {
        Some(PartView::Parent)
    } else {
        Some(PartView::Name(name))
    }
}

/// The components from position `i` on, at which a name begins.
pub open spec fn spans_from(s: Seq<u8>, i: int) -> Seq<SpanView>
    decreases s.len() - i,
{
    if 0 <= i <= s.len() {
        let j = name_end(s, i);
        let here = match part_of(s.subrange(i, j)) {
            Some(part) => seq![SpanView { part, start: i, end: j }],
            None => Seq::<SpanView>::empty(),
        };
        proof {
            lemma_name_end(s, i);
        }
        if j < s.len() {
            here + spans_from(s, j + 1)
        } else {
            here
        }
    } else {
        seq![]
    }
}

/// The components of a path with their places: repeated slashes, a slash at the
/// end, and single dots but for one at the beginning, make no difference.
pub open spec fn spans(s: Seq<u8>) -> Seq<SpanView> {
    (if s.len() > 0 && s.first() == SLASH {
        seq![SpanView { part: PartView::Root, start: 0, end: 1 }]
    } else if s.subrange(0, name_end(s, 0)) == seq![DOT] {
        seq![SpanView { part: PartView::Current, start: 0, end: 1 }]
    } else {
        Seq::<SpanView>::empty()
    }) + spans_from(s, 0)
}

/// The components of a path.
pub open spec fn parts(s: Seq<u8>) -> Seq<PartView> {
    spans(s).map_values(|x: SpanView| x.part)
}

/// Whether the components of `path` begin with those of `base`.
pub open spec fn lies_under(path: Seq<u8>, base: Seq<u8>) -> bool {
    &&& parts(base).len() <= parts(path).len()
    &&& parts(path).take(parts(base).len() as int) == parts(base)
}

/// Whether a path climbs to a parent directory.
pub open spec fn climbs(path: Seq<u8>) -> bool {
    parts(path).contains(PartView::Parent)
}

/// What `path` holds of its components behind those of `base`.
pub open spec fn relative_to(path: Seq<u8>, base: Seq<u8>) -> Option<Seq<u8>> {
    if lies_under(path, base) {
        let n = parts(base).len() as int;
        if n == spans(path).len() {
            Some(seq![])
        } else {
            Some(path.subrange(spans(path)[n].start, spans(path).last().end))
        }
    } else {
        None
    }
}

/// Whether a path begins at the root directory.
pub open spec fn is_absolute(s: Seq<u8>) -> bool {
    s.len() > 0 && s.first() == SLASH
}

/// `more` seen from `base`: `more` itself where it is absolute.
pub open spec fn join(base: Seq<u8>, more: Seq<u8>) -> Seq<u8> {
    if is_absolute(more) {
        more
    } else if base.len() > 0 && base.last() != SLASH {
        base.push(SLASH) + more
    } else {
        base + more
    }
}

/// A path as a text, with its separators written as slashes.
pub open spec fn with_slashes(path: Seq<u8>) -> Seq<char> {
    replace_char(lossy(path), '\\', "/"@)
}

/// Whether the last component of a path is a name with the extension `md`.
pub open spec fn is_markdown(s: Seq<u8>) -> bool {
    &&& parts(s).len() > 0
    &&& parts(s).last() matches PartView::Name(name)
    &&& name.len() > 3
    &&& name.skip(name.len() - 3) == seq![DOT, LOWER_M, LOWER_D]
}

/// One component of a path, by the place where its name stands.
#[derive(Clone, Copy, PartialEq, Eq, Structural)]
pub enum PartKind {
    Root,
    Current,
    Parent,
    Name,
}

/// A component and the place where it stands in the path.
pub struct Span {
    pub kind: PartKind,
    pub start: usize,
    pub end: usize,
}

/// What a component of the path `s` is.
pub open spec fn span_view(s: Seq<u8>, x: Span) -> SpanView {
    SpanView {
        part: match x.kind {
            PartKind::Root => PartView::Root,
            PartKind::Current => PartView::Current,
            PartKind::Parent => PartView::Parent,
            PartKind::Name => PartView::Name(s.subrange(x.start as int, x.end as int)),
        },
        start: x.start as int,
        end: x.end as int,
    }
}

/// What a list of components of the path `s` is.
pub open spec fn span_views(s: Seq<u8>, v: Seq<Span>) -> Seq<SpanView> {
    v.map_values(|x: Span| span_view(s, x))
}

/// The places of a path's components lie in the path.
pub proof fn lemma_spans_in_text(s: Seq<u8>, i: int)
    requires
        0 <= i <= s.len(),
    ensures
        forall|k: int|
            0 <= k < spans_from(s, i).len() ==> i <= (#[trigger] spans_from(s, i)[k]).start
                <= spans_from(s, i)[k].end <= s.len(),
        forall|k: int, l: int|
            0 <= k <= l < spans_from(s, i).len() ==> (#[trigger] spans_from(s, i)[k]).start <= (
            #[trigger] spans_from(s, i)[l]).end,
    decreases s.len() - i,
{
    let j = name_end(s, i);
    lemma_name_end(s, i);
    if j < s.len() {
        lemma_spans_in_text(s, j + 1);
        let rest = spans_from(s, j + 1);
        let all = spans_from(s, i);
        let here = match part_of(s.subrange(i, j)) {
            Some(part) => seq![SpanView { part, start: i, end: j }],
            None => Seq::<SpanView>::empty(),
        };
        assert(all == here + rest);
        assert forall|k: int| 0 <= k < all.len() implies i <= (#[trigger] all[k]).start
            <= all[k].end <= s.len() by {
            if k >= here.len() {
                assert(all[k] == rest[k - here.len()]);
            }
        }
        assert forall|k: int, l: int| 0 <= k <= l < all.len() implies (#[trigger] all[k]).start <= (
        #[trigger] all[l]).end by {
            if k >= here.len() {
                assert(all[k] == rest[k - here.len()]);
                assert(all[l] == rest[l - here.len()]);
            } else if l >= here.len() {
                assert(all[l] == rest[l - here.len()]);
            }
        }
    }
}

/// The same for all of a path's components.
pub proof fn lemma_spans_ordered(s: Seq<u8>)
    ensures
        forall|k: int, l: int|
            0 <= k <= l < spans(s).len() ==> 0 <= (#[trigger] spans(s)[k]).start <= (
            #[trigger] spans(s)[l]).end <= s.len(),
{
    lemma_spans_in_text(s, 0);
    lemma_name_end(s, 0);
    let rest = spans_from(s, 0);
    let all = spans(s);
    let lead = all.len() - rest.len();
    assert forall|k: int, l: int| 0 <= k <= l < all.len() implies 0 <= (#[trigger] all[k]).start
        <= (#[trigger] all[l]).end <= s.len() by {
        if l >= lead {
            assert(all[l] == rest[l - lead]);
        }
        if k >= lead {
            assert(all[k] == rest[k - lead]);
        }
        if s.subrange(0, name_end(s, 0)) == seq![DOT] {
            assert(s.subrange(0, name_end(s, 0)).len() == 1);
        }
    }
}

/// The components of a path with their places.
pub fn find_spans(s: &[u8]) -> (r: Vec<Span>)
    ensures
        span_views(s@, r@) == spans(s@),
        forall|k: int| 0 <= k < r@.len() ==> (#[trigger] r@[k]).start <= r@[k].end <= s@.len(),
{
    let n: usize = s.len();
    let mut dot: Vec<u8> = Vec::new();
    dot.push(DOT);
    let mut dots: Vec<u8> = Vec::new();
    dots.push(DOT);
    dots.push(DOT);
    assert(dot@ =~= seq![DOT]);
    assert(dots@ =~= seq![DOT, DOT]);
    let mut out: Vec<Span> = Vec::new();
    proof {
        lemma_spans_in_text(s@, 0);
    }
    assert(span_views(s@, out@) =~= Seq::<SpanView>::empty());
    let mut first_end: usize = 0;
    while first_end < n && s[first_end] != SLASH
        invariant
            first_end <= n,
            n == s@.len(),
            name_end(s@, first_end as int) == name_end(s@, 0),
        decreases n - first_end,
    {
        first_end += 1;
    }
    if n > 0 && s[0] == SLASH {
        out.push(Span { kind: PartKind::Root, start: 0, end: 1 });
    } else if same_bytes(slice_subrange(s, 0, first_end), dot.as_slice()) {
        assert(s@.subrange(0, first_end as int).len() == 1);
        out.push(Span { kind: PartKind::Current, start: 0, end: 1 });
    }
    let ghost lead = span_views(s@, out@);
    assert(spans(s@) =~= lead + spans_from(s@, 0));
    let mut i: usize = 0;
    let mut more: bool = true;
    while more
        invariant
            n == s@.len(),
            dot@ == seq![DOT],
            dots@ == seq![DOT, DOT],
            more ==> i <= n,
            forall|k: int| 0 <= k < out@.len() ==> (#[trigger] out@[k]).start <= out@[k].end <= n,
            spans(s@) == span_views(s@, out@) + if more {
                spans_from(s@, i as int)
            } else {
                Seq::<SpanView>::empty()
            },
        decreases (if more { n + 1 - i } else { 0 }),
    {
        let ghost before = out@;
        let begin: usize = i;
        let mut j: usize = begin;
        while j < n && s[j] != SLASH
            invariant
                begin <= j <= n,
                n == s@.len(),
                name_end(s@, j as int) == name_end(s@, begin as int),
            decreases n - j,
        {
            j += 1;
        }
        let name = slice_subrange(s, begin, j);
        if name.len() > 0 && !same_bytes(name, dot.as_slice()) {
            let kind = if same_bytes(name, dots.as_slice()) {
                PartKind::Parent
            } else {
                PartKind::Name
            };
            let span = Span { kind, start: begin, end: j };
            out.push(span);
            assert(span_views(s@, out@) =~= span_views(s@, before).push(span_view(s@, span)));
        }
        if j < n {
            i = j + 1;
        } else {
            more = false;
        }
        assert(spans(s@) =~= span_views(s@, out@) + if more {
            spans_from(s@, i as int)
        } else {
            Seq::<SpanView>::empty()
        });
    }
    assert(spans(s@) =~= span_views(s@, out@));
    out
}

/// Whether the component `x` of `a` and the component `y` of `b` are the same.
fn same_part(a: &[u8], x: &Span, b: &[u8], y: &Span) -> (r: bool)
    requires
        x.start <= x.end <= a@.len(),
        y.start <= y.end <= b@.len(),
    ensures
        r == (span_view(a@, *x).part == span_view(b@, *y).part),
{
    if x.kind != y.kind {
        return false;
    }
    if x.kind == PartKind::Name {
        same_bytes(slice_subrange(a, x.start, x.end), slice_subrange(b, y.start, y.end))
    } else {
        true
    }
}

/// Whether the components of `path` begin with those of `base`.
pub fn path_under(path: &[u8], base: &[u8]) -> (r: bool)
    ensures
        r == lies_under(path@, base@),
{
    let p = find_spans(path);
    let b = find_spans(base);
    assert(parts(path@).len() == p@.len());
    assert(parts(base@).len() == b@.len());
    if b.len() > p.len() {
        return false;
    }
    let mut i: usize = 0;
    while i < b.len()
        invariant
            i <= b@.len() <= p@.len(),
            span_views(path@, p@) == spans(path@),
            span_views(base@, b@) == spans(base@),
            parts(path@).len() == p@.len(),
            parts(base@).len() == b@.len(),
            forall|k: int| 0 <= k < p@.len() ==> (#[trigger] p@[k]).start <= p@[k].end <= path@.len(),
            forall|k: int| 0 <= k < b@.len() ==> (#[trigger] b@[k]).start <= b@[k].end <= base@.len(),
            forall|k: int| 0 <= k < i ==> parts(path@)[k] == #[trigger] parts(base@)[k],
        decreases b@.len() - i,
    {
        assert(span_views(path@, p@)[i as int] == span_view(path@, p@[i as int]));
        assert(span_views(base@, b@)[i as int] == span_view(base@, b@[i as int]));
        assert(parts(path@)[i as int] == span_view(path@, p@[i as int]).part);
        assert(parts(base@)[i as int] == span_view(base@, b@[i as int]).part);
        if !same_part(path, &p[i], base, &b[i]) {
            assert(parts(path@).take(parts(base@).len() as int)[i as int]
                != parts(base@)[i as int]);
            return false;
        }
        i += 1;
    }
    assert(parts(path@).take(parts(base@).len() as int) =~= parts(base@));
    true
}

/// Whether a path climbs to a parent directory.
pub fn path_climbs(path: &[u8]) -> (r: bool)
    ensures
        r == climbs(path@),
{
    let p = find_spans(path);
    assert(parts(path@).len() == p@.len());
    let mut i: usize = 0;
    while i < p.len()
        invariant
            i <= p@.len(),
            span_views(path@, p@) == spans(path@),
            parts(path@).len() == p@.len(),
            forall|k: int| 0 <= k < i ==> #[trigger] parts(path@)[k] != PartView::Parent,
        decreases p@.len() - i,
    {
        assert(span_views(path@, p@)[i as int] == span_view(path@, p@[i as int]));
        assert(parts(path@)[i as int] == span_view(path@, p@[i as int]).part);
        if p[i].kind == PartKind::Parent {
            return true;
        }
        i += 1;
    }
    false
}

/// What `path` holds of its components behind those of `base`.
pub fn path_relative<'a>(path: &'a [u8], base: &[u8]) -> (r: Option<&'a [u8]>)
    ensures
        match r {
            Some(t) => relative_to(path@, base@) == Some(t@),
            None => relative_to(path@, base@) is None,
        },
{
    if !path_under(path, base) {
        return None;
    }
    let p = find_spans(path);
    let n: usize = find_spans(base).len();
    proof {
        lemma_spans_ordered(path@);
        assert(span_views(path@, p@).len() == p@.len());
    }
    if n == p.len() {
        assert(path@.subrange(0, 0) =~= Seq::<u8>::empty());
        return Some(slice_subrange(path, 0, 0));
    }
    assert(span_views(path@, p@)[n as int] == span_view(path@, p@[n as int]));
    assert(span_views(path@, p@).last() == span_view(path@, p@.last()));
    Some(slice_subrange(path, p[n].start, p[p.len() - 1].end))
}

/// `more` seen from `base`.
pub fn path_join(base: &[u8], more: &[u8]) -> (r: Vec<u8>)
    ensures
        r@ == join(base@, more@),
{
    let mut out: Vec<u8> = Vec::new();
    if !(more.len() > 0 && more[0] == SLASH) {
        push_bytes(&mut out, base);
        if base.len() > 0 && base[base.len() - 1] != SLASH {
            out.push(SLASH);
        }
    }
    push_bytes(&mut out, more);
    assert(out@ =~= join(base@, more@));
    out
}

/// A path as a text, with its separators written as slashes.
pub fn path_to_string(path: &[u8]) -> (r: String)
    ensures
        r@ == with_slashes(path@),
{
    let text = lossy_text(path);
    let chars = chars_of(text.as_str());
    let out = replaced(chars.as_slice(), '\\', "/");
    string_of(out.as_slice())
}

/// Whether the last component of a path is a name with the extension `md`.
pub fn has_markdown_extension(path: &[u8]) -> (r: bool)
    ensures
        r == is_markdown(path@),
{
    let p = find_spans(path);
    assert(parts(path@).len() == p@.len());
    if p.len() == 0 {
        return false;
    }
    let last = &p[p.len() - 1];
    assert(span_views(path@, p@).last() == span_view(path@, p@.last()));
    assert(parts(path@).last() == span_view(path@, p@.last()).part);
    if last.kind != PartKind::Name {
        return false;
    }
    let name = slice_subrange(path, last.start, last.end);
    let n: usize = name.len();
    if n <= 3 {
        return false;
    }
    assert(name@.skip(n - 3) =~= seq![name@[n - 3], name@[n - 2], name@[n - 1]]);
    let ghost end = seq![DOT, LOWER_M, LOWER_D];
    assert(name@.skip(n - 3) == end ==> name@[n - 3] == end[0] && name@[n - 2] == end[1]
        && name@[n - 1] == end[2]);
    name[n - 3] == DOT && name[n - 2] == LOWER_M && name[n - 1] == LOWER_D
}

/// Whether every component of a path from position `i` on is a name, and none is
/// empty, `.` or `..`.
pub open spec fn plain_from(s: Seq<u8>, i: int) -> bool
    decreases s.len() - i,
{
    if 0 <= i <= s.len() {
        let j = name_end(s, i);
        proof {
            lemma_name_end(s, i);
        }
        &&& part_of(s.subrange(i, j)) matches Some(PartView::Name(_))
        &&& j < s.len() ==> plain_from(s, j + 1)
    } else {
        false
    }
}

/// Whether a path is relative and made of names only: no component is empty, `.`
/// or `..`.
pub open spec fn is_plain(s: Seq<u8>) -> bool {
    plain_from(s, 0)
}

proof fn lemma_plain_spans(s: Seq<u8>, i: int)
    requires
        0 <= i <= s.len(),
        plain_from(s, i),
    ensures
        spans_from(s, i).len() > 0,
        spans_from(s, i).first().start == i,
        spans_from(s, i).last().end == s.len(),
        forall|k: int|
            0 <= k < spans_from(s, i).len() ==> (#[trigger] spans_from(s, i)[k]).part is Name,
    decreases s.len() - i,
{
    lemma_name_end(s, i);
    let j = name_end(s, i);
    if j < s.len() {
        lemma_plain_spans(s, j + 1);
        let rest = spans_from(s, j + 1);
        let all = spans_from(s, i);
        let here = seq![SpanView { part: part_of(s.subrange(i, j))->Some_0, start: i, end: j }];
        assert(all == here + rest);
        assert(all.last() == rest.last());
        assert forall|k: int| 0 <= k < all.len() implies (#[trigger] all[k]).part is Name by {
            if k > 0 {
                assert(all[k] == rest[k - 1]);
            }
        }
    }
}

/// A name in front of a slash ends where it ends alone.
proof fn lemma_name_end_front(base: Seq<u8>, more: Seq<u8>, i: int)
    requires
        0 <= i <= base.len(),
    ensures
        name_end(base.push(SLASH) + more, i) == name_end(base, i),
    decreases base.len() - i,
{
    if i < base.len() && base[i] != SLASH {
        lemma_name_end_front(base, more, i + 1);
    }
}

/// The components of a path in front of a slash are those that it has alone.
proof fn lemma_spans_front(base: Seq<u8>, more: Seq<u8>, i: int)
    requires
        0 <= i <= base.len(),
    ensures
        spans_from(base.push(SLASH) + more, i) == spans_from(base, i) + spans_from(
            base.push(SLASH) + more,
            base.len() as int + 1,
        ),
    decreases base.len() - i,
{
    let path = base.push(SLASH) + more;
    lemma_name_end(base, i);
    lemma_name_end_front(base, more, i);
    let j = name_end(base, i);
    assert(path.subrange(i, j) =~= base.subrange(i, j));
    if j < base.len() {
        lemma_spans_front(base, more, j + 1);
    }
    assert(spans_from(path, i) =~= spans_from(base, i) + spans_from(path, base.len() as int + 1));
}

/// A component that stands `by` bytes further on.
spec fn moved(x: SpanView, by: int) -> SpanView {
    SpanView { part: x.part, start: x.start + by, end: x.end + by }
}

proof fn lemma_name_end_behind(front: Seq<u8>, s: Seq<u8>, i: int)
    requires
        0 <= i <= s.len(),
    ensures
        name_end(front + s, front.len() + i) == name_end(s, i) + front.len(),
    decreases s.len() - i,
{
    if i < s.len() && s[i] != SLASH {
        lemma_name_end_behind(front, s, i + 1);
    }
}

/// The components of a path behind something else are those that it has alone.
proof fn lemma_spans_behind(front: Seq<u8>, s: Seq<u8>, i: int)
    requires
        0 <= i <= s.len(),
    ensures
        spans_from(front + s, front.len() + i) == spans_from(s, i).map_values(
            |x: SpanView| moved(x, front.len() as int),
        ),
    decreases s.len() - i,
{
    let by = front.len() as int;
    let shift = |x: SpanView| moved(x, by);
    lemma_name_end(s, i);
    lemma_name_end_behind(front, s, i);
    let j = name_end(s, i);
    assert((front + s).subrange(by + i, by + j) =~= s.subrange(i, j));
    if j < s.len() {
        lemma_spans_behind(front, s, j + 1);
    }
    assert(spans_from(front + s, by + i) =~= spans_from(s, i).map_values(shift));
}

/// A relative path of names only, seen from an absolute one, lies under it, and
/// what it adds is itself. It climbs only where the absolute path does.
pub proof fn law_plain_paths_are_kept(base: Seq<u8>, more: Seq<u8>)
    requires
        is_absolute(base),
        is_plain(more),
    ensures
        relative_to(base.push(SLASH) + more, base) == Some(more),
        climbs(base.push(SLASH) + more) == climbs(base),
{
    let path = base.push(SLASH) + more;
    let front = base.push(SLASH);
    let by = front.len() as int;
    lemma_spans_front(base, more, 0);
    lemma_spans_behind(front, more, 0);
    lemma_plain_spans(more, 0);
    let added = spans_from(path, by);
    assert(added == spans_from(more, 0).map_values(|x: SpanView| moved(x, by)));
    assert(path.first() == base.first());
    assert(spans(path) =~= spans(base) + added);
    let n = parts(base).len() as int;
    assert(parts(path).take(n) =~= parts(base));
    assert(spans(path)[n] == added[0]);
    assert(spans(path).last() == added.last());
    assert(added[0].start == by);
    assert(added.last().end == path.len());
    assert(path.subrange(by, path.len() as int) =~= more);
    if climbs(path) {
        let k = choose|k: int| 0 <= k < parts(path).len() && parts(path)[k] == PartView::Parent;
        if k < n {
            assert(parts(base)[k] == PartView::Parent);
        } else {
            assert(parts(path)[k] == spans(path)[k].part);
            assert(spans(path)[k] == added[k - n]);
            assert(spans_from(more, 0)[k - n].part is Name);
        }
    }
    if climbs(base) {
        let k = choose|k: int| 0 <= k < parts(base).len() && parts(base)[k] == PartView::Parent;
        assert(parts(path)[k] == PartView::Parent);
    }
}

/// A path behind another is the other with one slash and the path, or the path
/// itself where it is absolute.
pub proof fn law_joined_paths(base: Seq<u8>, more: Seq<u8>)
    ensures
        more.len() > 0 && more[0] == 47 ==> join(base, more) == more,
        base.len() == 0 ==> join(base, more) == more,
        base.len() > 0 && base.last() == 47 && !(more.len() > 0 && more[0] == 47) ==> join(
            base,
            more,
        ) == base + more,
        base.len() > 0 && base.last() != 47 && !(more.len() > 0 && more[0] == 47) ==> join(
            base,
            more,
        ) == base + seq![47u8] + more,
{
    if base.len() == 0 {
        assert(base + more =~= more);
    }
    assert(base.push(SLASH) + more =~= base + seq![47u8] + more);
}

/// The components that a path has behind its beginning.
pub open spec fn names_of(s: Seq<u8>) -> Seq<PartView> {
    spans_from(s, 0).map_values(|x: SpanView| x.part)
}

/// The components of a path are those in front of a slash and those behind it. What
/// stands between two slashes is a name, the parent where it is two dots, and nothing
/// where it is empty or a single dot.
pub proof fn law_slashes_part_paths(a: Seq<u8>, b: Seq<u8>, name: Seq<u8>)
    ensures
        names_of(a + seq![47u8] + b) == names_of(a) + names_of(b),
        !name.contains(47u8) ==> names_of(name) == if name.len() == 0 || name == seq![46u8] {
            Seq::<PartView>::empty()
        } else if name == seq![46u8, 46u8] {
            seq![PartView::Parent]
        } else {
            seq![PartView::Name(name)]
        },
        a.len() > 0 && a[0] == 47 ==> parts(a) == seq![PartView::Root] + names_of(a),
        !name.contains(47u8) && name != seq![46u8] ==> parts(name) == names_of(name),
        a.len() > 0 ==> parts(a + seq![47u8] + b) == parts(a) + names_of(b),
{
    let path = a.push(SLASH) + b;
    let front = a.push(SLASH);
    assert(a + seq![47u8] + b =~= path);
    lemma_spans_front(a, b, 0);
    lemma_spans_behind(front, b, 0);
    assert(names_of(path) =~= names_of(a) + names_of(b));
    lemma_name_end(name, 0);
    if !name.contains(47u8) {
        if name_end(name, 0) < name.len() {
            assert(name.contains(name[name_end(name, 0)]));
        }
        assert(name.subrange(0, name.len() as int) =~= name);
        assert(spans_from(name, 0) =~= match part_of(name) {
            Some(part) => seq![SpanView { part, start: 0, end: name.len() as int }],
            None => Seq::<SpanView>::empty(),
        });
        assert(names_of(name) =~= match part_of(name) {
            Some(part) => seq![part],
            None => Seq::<PartView>::empty(),
        });
        if name.len() > 0 {
            assert(name[0] != SLASH) by {
                assert(name.contains(name[0]));
            }
        }
        if name != seq![46u8] {
            assert(spans(name) =~= spans_from(name, 0));
            assert(parts(name) =~= names_of(name));
        }
    }
    if a.len() > 0 && a[0] == 47 {
        assert(parts(a) =~= seq![PartView::Root] + names_of(a));
    }
    if a.len() > 0 {
        lemma_name_end_front(a, b, 0);
        lemma_name_end(a, 0);
        assert(path[0] == a[0]);
        assert(path.subrange(0, name_end(path, 0)) =~= a.subrange(0, name_end(a, 0)));
        assert(parts(path) =~= parts(a) + names_of(b));
    }
}

/// A path is under another where its components begin with those of the other, and
/// it climbs where one of them is the parent.
pub proof fn law_paths_lie_under_their_beginning(a: Seq<u8>, b: Seq<u8>, i: int)
    ensures
        a.len() > 0 ==> lies_under(a + seq![47u8] + b, a),
        lies_under(a, b) && 0 <= i < parts(b).len() ==> i < parts(a).len() && parts(a)[i] == parts(
            b,
        )[i],
        0 <= i < parts(a).len() && parts(a)[i] is Parent ==> climbs(a),
        climbs(a) ==> exists|k: int| 0 <= k < parts(a).len() && parts(a)[k] is Parent,
        relative_to(a, b) is Some <==> lies_under(a, b),
{
    law_slashes_part_paths(a, b, b);
    if a.len() > 0 {
        assert((parts(a) + names_of(b)).take(parts(a).len() as int) =~= parts(a));
    }
    if lies_under(a, b) && 0 <= i < parts(b).len() {
        assert(parts(a).take(parts(b).len() as int)[i] == parts(b)[i]);
    }
    if climbs(a) {
        let k = choose|k: int| 0 <= k < parts(a).len() && parts(a)[k] == PartView::Parent;
        assert(parts(a)[k] is Parent);
    }
}

/// A file whose name ends in `.md` is a Markdown document, unless there is nothing
/// in front of the dot; one whose name ends otherwise is none.
pub proof fn law_markdown_goes_by_the_name(dir: Seq<u8>, name: Seq<u8>)
    requires
        dir.len() > 0,
        name.len() > 0,
        !name.contains(47u8),
        name != seq![46u8],
        name != seq![46u8, 46u8],
    ensures
        is_markdown(dir + seq![47u8] + name) == (name.len() > 3 && name[name.len() - 3] == 46
            && name[name.len() - 2] == 109 && name[name.len() - 1] == 100),
        is_markdown(name) == (name.len() > 3 && name[name.len() - 3] == 46 && name[name.len() - 2]
            == 109 && name[name.len() - 1] == 100),
{
    law_slashes_part_paths(dir, name, name);
    if name.len() > 3 {
        let end = name.skip(name.len() - 3);
        let md = seq![DOT, LOWER_M, LOWER_D];
        assert(end.len() == 3 && md.len() == 3);
        assert(end[0] == name[name.len() - 3] && end[1] == name[name.len() - 2] && end[2]
            == name[name.len() - 1]);
        assert(md[0] == 46 && md[1] == 109 && md[2] == 100);
        if end[0] == 46 && end[1] == 109 && end[2] == 100 {
            assert(end =~= md);
        }
    }
}

/// A path is shown as the text that it is, with slashes in place of backslashes.
pub proof fn law_paths_are_shown(path: Seq<u8>, i: int)
    ensures
        with_slashes(path).len() == lossy(path).len(),
        0 <= i < lossy(path).len() ==> with_slashes(path)[i] == if lossy(path)[i] == '\\' {
            '/'
        } else {
            lossy(path)[i]
        },
{
    reveal_strlit("/");
    assert("/"@ =~= seq!['/']);
    lemma_replace_one(lossy(path), '\\', '/');
}

/// A path is plain where it is a name, or a name and a plain path behind a slash.
pub proof fn law_names_make_plain_paths(name: Seq<u8>, rest: Seq<u8>)
    requires
        !name.contains(47u8),
    ensures
        is_plain(name) <==> name.len() > 0 && name != seq![46u8] && name != seq![46u8, 46u8],
        is_plain(name + seq![47u8] + rest) <==> is_plain(name) && is_plain(rest),
{
    lemma_name_end(name, 0);
    if name_end(name, 0) < name.len() {
        assert(name.contains(name[name_end(name, 0)]));
    }
    assert(name.subrange(0, name.len() as int) =~= name);
    let path = name.push(SLASH) + rest;
    let front = name.push(SLASH);
    assert(name + seq![47u8] + rest =~= path);
    lemma_name_end_front(name, rest, 0);
    assert(path.subrange(0, name.len() as int) =~= name);
    lemma_plain_behind(front, rest, 0);
}

proof fn lemma_plain_behind(front: Seq<u8>, s: Seq<u8>, i: int)
    requires
        0 <= i <= s.len(),
    ensures
        plain_from(front + s, front.len() + i) == plain_from(s, i),
    decreases s.len() - i,
{
    lemma_name_end(s, i);
    lemma_name_end_behind(front, s, i);
    let j = name_end(s, i);
    let by = front.len() as int;
    assert((front + s).subrange(by + i, by + j) =~= s.subrange(i, j));
    if j < s.len() {
        lemma_plain_behind(front, s, j + 1);
    }
}

} // verus!
