//! Cutting a document into the chunks that are indexed.

use vstd::prelude::*;

use crate::digest::{content_sha256, is_short_id, make_id, short_id, text_digest};
use crate::knowledge_wiki::frontmatter::{document_body, parse_frontmatter};
use crate::numerals::{decimal_int, write_i64};
use crate::text::{byte_len, chars_of, count_bytes, joined, lemma_byte_len_concat};
use crate::text::{lemma_byte_len_push, lemma_joined_concat, pieces, push_slice, push_text};
use crate::text::{find, is_space, occurs_at, spelled, split, string_of, texts, trim, trim_end};
use crate::text::{contains_text, lemma_find_is_contains, lemma_trim_ends, trim_start, trimmed, width};

verus! {

/// No chunk size below this is accepted.
pub const MIN_CHUNK_BYTES: usize = 256;

/// The size that chunks are cut to.
pub open spec fn chunk_limit(max_chars: usize) -> nat {
    if max_chars >= MIN_CHUNK_BYTES {
        max_chars as nat
    } else {
        MIN_CHUNK_BYTES as nat
    }
}

/// The pieces that `rest` is cut into when `cur` stands open: a piece is closed
/// as soon as it takes `limit` bytes.
pub open spec fn pieces_from(rest: Seq<char>, cur: Seq<char>, limit: nat) -> Seq<Seq<char>>
    decreases rest.len(),
{
    if rest.len() == 0 {
        if cur.len() == 0 {
            seq![]
        } else {
            seq![cur]
        }
    } else {
        let grown = cur.push(rest.first());
        if byte_len(grown) >= limit {
            seq![grown] + pieces_from(rest.drop_first(), seq![], limit)
        } else {
            pieces_from(rest.drop_first(), grown, limit)
        }
    }
}

/// The pieces that a block is cut into.
pub open spec fn block_pieces(block: Seq<char>, limit: nat) -> Seq<Seq<char>> {
    pieces_from(block, seq![], limit)
}

/// The chunks that are closed, and the open one.
pub struct Packing {
    pub closed: Seq<Seq<char>>,
    pub open: Seq<char>,
}

/// Adds one paragraph: to the open chunk as long as that stays within the
/// limit, else to a new one; a paragraph above the limit is cut into pieces.
pub open spec fn pack_block(p: Packing, raw: Seq<char>, limit: nat) -> Packing {
    let block = trim(raw);
    if block.len() == 0 {
        p
    } else {
        let projected = if p.open.len() == 0 {
            byte_len(block)
        } else {
            byte_len(p.open) + 2 + byte_len(block)
        };
        let q = if projected > limit && p.open.len() > 0 {
            Packing { closed: p.closed.push(p.open), open: seq![] }
        } else {
            p
        };
        if byte_len(block) > limit {
            Packing { closed: q.closed + block_pieces(block, limit), open: q.open }
        } else if q.open.len() == 0 {
            Packing { closed: q.closed, open: block }
        } else {
            Packing { closed: q.closed, open: q.open + "\n\n"@ + block }
        }
    }
}

/// Adds paragraphs one after another.
pub open spec fn pack_blocks(blocks: Seq<Seq<char>>, limit: nat) -> Packing
    decreases blocks.len(),
{
    if blocks.len() == 0 {
        Packing { closed: seq![], open: seq![] }
    } else {
        pack_block(pack_blocks(blocks.drop_last(), limit), blocks.last(), limit)
    }
}

/// The texts of a document's chunks.
pub open spec fn chunk_texts(content: Seq<char>, max_chars: usize) -> Seq<Seq<char>> {
    let p = pack_blocks(split(document_body(content), "\n\n"@), chunk_limit(max_chars));
    if trim(p.open).len() > 0 {
        p.closed.push(p.open)
    } else {
        p.closed
    }
}

/// The identifier of the chunk at position `idx` of the document at `path`.
pub open spec fn chunk_id(path: Seq<char>, idx: i32, content: Seq<char>) -> Seq<char> {
    short_id(
        "mw_"@,
        path + "\0"@ + decimal_int(idx as int) + "\0"@ + text_digest(content),
    )
}

/// What a chunk is: its identifier, its position and its text.
pub open spec fn chunk_view(c: (String, i32, String)) -> (Seq<char>, i32, Seq<char>) {
    (c.0@, c.1, c.2@)
}

/// What a list of chunks is.
pub open spec fn chunk_views(s: Seq<(String, i32, String)>) -> Seq<(Seq<char>, i32, Seq<char>)> {
    s.map_values(|c: (String, i32, String)| chunk_view(c))
}

/// Whether the identifier of every chunk has the form of one: `mw_` and
/// twenty-four digits of lower-case hexadecimal.
pub open spec fn ids_formed(s: Seq<(String, i32, String)>) -> bool {
    forall|k: int| 0 <= k < s.len() ==> is_short_id("mw_"@, (#[trigger] s[k]).0@)
}

/// The chunks with these texts: each has its position, and the identifier that
/// follows from the path, the position and the text.
pub open spec fn numbered(path: Seq<char>, parts: Seq<Seq<char>>) -> Seq<
    (Seq<char>, i32, Seq<char>),
> {
    Seq::new(
        parts.len(),
        |i: int| (chunk_id(path, i as i32, parts[i]), i as i32, parts[i]),
    )
}

/// The chunks of a document.
pub open spec fn chunks_of(path: Seq<char>, content: Seq<char>, max_chars: usize) -> Seq<
    (Seq<char>, i32, Seq<char>),
> {
    numbered(path, chunk_texts(content, max_chars))
}

/// The pieces that a block is cut into, none of them below the limit but the last.
pub fn split_long_block(block: &[char], limit: usize) -> (r: Vec<String>)
    ensures
        texts(r@) == block_pieces(block@, limit as nat),
{
    let mut out: Vec<String> = Vec::new();
    let mut cur: Vec<char> = Vec::new();
    let mut cur_bytes: u128 = 0;
    let mut i: usize = 0;
    let n: usize = block.len();
    assert(block@.skip(0) == block@);
    assert(cur@ =~= Seq::<char>::empty());
    assert(texts(out@) + pieces_from(block@.skip(0), cur@, limit as nat) =~= block_pieces(
        block@,
        limit as nat,
    ));
    while i < n
        invariant
            i <= n,
            n == block@.len(),
            cur_bytes == byte_len(cur@),
            cur_bytes <= 4 * i,
            texts(out@) + pieces_from(block@.skip(i as int), cur@, limit as nat) == block_pieces(
                block@,
                limit as nat,
            ),
        decreases n - i,
    {
        let c = block[i];
        let ghost rest = block@.skip(i as int);
        let ghost before = out@;
        let ghost open = cur@;
        proof {
            lemma_byte_len_push(cur@, c);
            assert(rest.drop_first() == block@.skip(i + 1));
        }
        cur.push(c);
        cur_bytes = cur_bytes + width(c) as u128;
        i += 1;
        if cur_bytes >= limit as u128 {
            out.push(string_of(cur.as_slice()));
            proof {
                assert(texts(out@) =~= texts(before).push(open.push(c)));
                assert(texts(before) + (seq![open.push(c)] + pieces_from(
                    block@.skip(i as int),
                    seq![],
                    limit as nat,
                )) =~= texts(out@) + pieces_from(block@.skip(i as int), seq![], limit as nat));
            }
            cur = Vec::new();
            cur_bytes = 0;
            assert(cur@ =~= Seq::<char>::empty());
        }
    }
    let ghost before = out@;
    assert(block@.skip(i as int) =~= Seq::<char>::empty());
    if cur.len() > 0 {
        out.push(string_of(cur.as_slice()));
        assert(texts(out@) =~= texts(before) + seq![cur@]);
    } else {
        assert(texts(out@) =~= texts(before) + Seq::<Seq<char>>::empty());
    }
    out
}

/// Puts the chunk with this text behind the others.
pub fn push_chunk(path: &str, chunks: &mut Vec<(String, i32, String)>, content: String)
    ensures
        chunk_views(final(chunks)@) == chunk_views(old(chunks)@).push(
            (
                chunk_id(path@, old(chunks)@.len() as i32, content@),
                old(chunks)@.len() as i32,
                content@,
            ),
        ),
        ids_formed(old(chunks)@) ==> ids_formed(final(chunks)@),
{
    #[verifier::truncate]
    let idx: i32 = chunks.len() as i32;
    let mut material = chars_of(path);
    push_text(&mut material, "\0");
    push_text(&mut material, write_i64(idx as i64).as_str());
    push_text(&mut material, "\0");
    push_text(&mut material, content_sha256(content.as_str()).as_str());
    let material = string_of(material.as_slice());
    let id = make_id("mw_", material.as_str());
    chunks.push((id, idx, content));
    assert(chunk_views(chunks@) =~= chunk_views(old(chunks)@).push(
        (
            chunk_id(path@, old(chunks)@.len() as i32, content@),
            old(chunks)@.len() as i32,
            content@,
        ),
    ));
}

/// One more chunk behind the others takes the next number.
proof fn lemma_numbered_push(path: Seq<char>, parts: Seq<Seq<char>>, t: Seq<char>)
    ensures
        numbered(path, parts.push(t)) == numbered(path, parts).push(
            (chunk_id(path, parts.len() as i32, t), parts.len() as i32, t),
        ),
{
    assert(numbered(path, parts.push(t)) =~= numbered(path, parts).push(
        (chunk_id(path, parts.len() as i32, t), parts.len() as i32, t),
    ));
}

/// The chunks of a document, with their identifiers and positions.
pub fn chunk_markdown(path: &str, content: &str, max_chars: usize) -> (r: Vec<
    (String, i32, String),
>)
    ensures
        chunk_views(r@) == chunks_of(path@, content@, max_chars),
        ids_formed(r@),
{
    let (_, body) = parse_frontmatter(content);
    let limit: usize = if max_chars >= MIN_CHUNK_BYTES {
        max_chars
    } else {
        MIN_CHUNK_BYTES
    };
    let body_chars = chars_of(body);
    proof {
        reveal_strlit("\n\n");
    }
    let blocks = pieces(body_chars.as_slice(), "\n\n");
    let ghost bv = spelled(blocks@);
    let mut chunks: Vec<(String, i32, String)> = Vec::new();
    let mut current: Vec<char> = Vec::new();
    let mut i: usize = 0;
    assert(bv.take(0) =~= Seq::<Seq<char>>::empty());
    assert(chunk_views(chunks@) =~= numbered(path@, seq![]));
    assert(current@ =~= Seq::<char>::empty());
    while i < blocks.len()
        invariant
            i <= blocks@.len(),
            bv == spelled(blocks@),
            limit == chunk_limit(max_chars),
            ids_formed(chunks@),
            ({
                let p = pack_blocks(bv.take(i as int), limit as nat);
                chunk_views(chunks@) == numbered(path@, p.closed) && current@ == p.open
            }),
        decreases blocks@.len() - i,
    {
        let ghost p = pack_blocks(bv.take(i as int), limit as nat);
        assert(bv.take(i + 1).drop_last() == bv.take(i as int));
        assert(bv.take(i + 1).last() == blocks@[i as int]@);
        let block = trimmed(blocks[i]);
        i += 1;
        if block.len() == 0 {
            continue;
        }
        let block_bytes = count_bytes(block);
        let projected = if current.len() == 0 {
            block_bytes
        } else {
            count_bytes(current.as_slice()) + 2 + block_bytes
        };
        let ghost mut closed = p.closed;
        assert(chunks@.len() == chunk_views(chunks@).len());
        if projected > limit as u128 && current.len() > 0 {
            push_chunk(path, &mut chunks, string_of(current.as_slice()));
            proof {
                lemma_numbered_push(path@, p.closed, p.open);
                closed = p.closed.push(p.open);
            }
            current = Vec::new();
            assert(current@ =~= Seq::<char>::empty());
        }
        if block_bytes > limit as u128 {
            let parts = split_long_block(block, limit);
            let ghost pv = texts(parts@);
            let mut k: usize = 0;
            assert(closed + pv.take(0) =~= closed);
            while k < parts.len()
                invariant
                    k <= parts@.len(),
                    pv == texts(parts@),
                    ids_formed(chunks@),
                    chunk_views(chunks@) == numbered(path@, closed + pv.take(k as int)),
                decreases parts@.len() - k,
            {
                assert(chunks@.len() == chunk_views(chunks@).len());
                let piece = parts[k].clone();
                push_chunk(path, &mut chunks, piece);
                proof {
                    lemma_numbered_push(path@, closed + pv.take(k as int), pv[k as int]);
                    assert((closed + pv.take(k as int)).push(pv[k as int]) =~= closed + pv.take(
                        k + 1,
                    ));
                }
                k += 1;
            }
            assert(pv.take(k as int) == pv);
        } else if current.len() == 0 {
            push_slice(&mut current, block);
            assert(current@ =~= block@);
        } else {
            push_text(&mut current, "\n\n");
            push_slice(&mut current, block);
        }
    }
    assert(bv.take(i as int) == bv);
    let ghost p = pack_blocks(bv, limit as nat);
    if trimmed(current.as_slice()).len() > 0 {
        assert(chunks@.len() == chunk_views(chunks@).len());
        push_chunk(path, &mut chunks, string_of(current.as_slice()));
        proof {
            lemma_numbered_push(path@, p.closed, p.open);
        }
    }
    chunks
}

/// The characters of a text that are not white space.
pub open spec fn ink(s: Seq<char>) -> Seq<char>
    decreases s.len(),
{
    if s.len() == 0 {
        seq![]
    } else if is_space(s.last()) {
        ink(s.drop_last())
    } else {
        ink(s.drop_last()).push(s.last())
    }
}

proof fn lemma_ink_concat(a: Seq<char>, b: Seq<char>)
    ensures
        ink(a + b) == ink(a) + ink(b),
    decreases b.len(),
{
    if b.len() == 0 {
        assert(a + b =~= a);
        assert(ink(a) + ink(b) =~= ink(a));
    } else {
        assert((a + b).drop_last() =~= a + b.drop_last());
        lemma_ink_concat(a, b.drop_last());
        assert(ink(a + b) =~= ink(a) + ink(b));
    }
}

proof fn lemma_ink_blank(s: Seq<char>)
    requires
        forall|i: int| 0 <= i < s.len() ==> is_space(#[trigger] s[i]),
    ensures
        ink(s) == Seq::<char>::empty(),
    decreases s.len(),
{
    if s.len() > 0 {
        lemma_ink_blank(s.drop_last());
    }
}

proof fn lemma_ink_trim(s: Seq<char>)
    ensures
        ink(trim(s)) == ink(s),
{
    lemma_ink_trim_start(s);
    lemma_ink_trim_end(trim_start(s));
}

proof fn lemma_ink_trim_start(s: Seq<char>)
    ensures
        ink(trim_start(s)) == ink(s),
    decreases s.len(),
{
    if s.len() > 0 && is_space(s.first()) {
        lemma_ink_trim_start(s.drop_first());
        let head = seq![s.first()];
        assert(s =~= head + s.drop_first());
        lemma_ink_concat(head, s.drop_first());
        lemma_ink_blank(head);
        assert(ink(head) + ink(s.drop_first()) =~= ink(s.drop_first()));
    }
}

proof fn lemma_ink_trim_end(s: Seq<char>)
    ensures
        ink(trim_end(s)) == ink(s),
    decreases s.len(),
{
    if s.len() > 0 && is_space(s.last()) {
        lemma_ink_trim_end(s.drop_last());
    }
}

/// Cutting a text at blank separators keeps its ink.
proof fn lemma_ink_split(s: Seq<char>, sep: Seq<char>)
    requires
        sep.len() > 0,
        ink(sep) == Seq::<char>::empty(),
    ensures
        ink(joined(split(s, sep))) == ink(s),
    decreases s.len(),
{
    lemma_find_is_contains(s, sep, 0);
    match find(s, sep) {
        Some(i) => {
            let head = s.take(i);
            let tail = s.skip(i + sep.len());
            assert(s =~= head + sep + tail) by {
                assert(occurs_at(s, sep, i));
                assert(s =~= s.take(i) + s.subrange(i, i + sep.len()) + s.skip(i + sep.len()));
            }
            lemma_ink_concat(head + sep, tail);
            lemma_ink_concat(head, sep);
            assert(ink(head) + ink(sep) =~= ink(head));
            lemma_ink_split(tail, sep);
            let one = seq![head];
            lemma_joined_concat(one, split(tail, sep));
            lemma_joined_one(head);
            lemma_ink_concat(head, joined(split(tail, sep)));
        },
        None => {
            lemma_joined_one(s);
        },
    }
}

proof fn lemma_joined_one(t: Seq<char>)
    ensures
        joined(seq![t]) == t,
{
    let one = seq![t];
    assert(one.drop_last() =~= Seq::<Seq<char>>::empty());
    assert(joined(one.drop_last()) =~= Seq::<char>::empty());
    assert(joined(one) =~= t);
}

proof fn lemma_joined_push(a: Seq<Seq<char>>, t: Seq<char>)
    ensures
        joined(a.push(t)) == joined(a) + t,
{
    assert(a.push(t).drop_last() =~= a);
}

proof fn lemma_pieces_cover(rest: Seq<char>, cur: Seq<char>, limit: nat)
    ensures
        joined(pieces_from(rest, cur, limit)) == cur + rest,
    decreases rest.len(),
{
    if rest.len() == 0 {
        assert(cur + rest =~= cur);
        if cur.len() > 0 {
            lemma_joined_one(cur);
        } else {
            assert(joined(pieces_from(rest, cur, limit)) =~= cur);
        }
    } else {
        let grown = cur.push(rest.first());
        if byte_len(grown) >= limit {
            lemma_pieces_cover(rest.drop_first(), seq![], limit);
            let one = seq![grown];
            lemma_joined_concat(one, pieces_from(rest.drop_first(), seq![], limit));
            lemma_joined_one(grown);
            assert(grown + (Seq::<char>::empty() + rest.drop_first()) =~= cur + rest);
        } else {
            lemma_pieces_cover(rest.drop_first(), grown, limit);
            assert(grown + rest.drop_first() =~= cur + rest);
        }
    }
}

/// The pieces of a block, one behind the other, are the block.
pub proof fn law_pieces_cover_block(block: Seq<char>, limit: nat)
    ensures
        joined(block_pieces(block, limit)) == block,
{
    lemma_pieces_cover(block, seq![], limit);
    assert(Seq::<char>::empty() + block =~= block);
}

proof fn lemma_pieces_size(rest: Seq<char>, cur: Seq<char>, limit: nat, k: int)
    requires
        limit > 0,
        byte_len(cur) < limit,
        0 <= k < pieces_from(rest, cur, limit).len(),
    ensures
        pieces_from(rest, cur, limit)[k].len() > 0,
        byte_len(pieces_from(rest, cur, limit)[k]) < limit + 4,
        k < pieces_from(rest, cur, limit).len() - 1 ==> byte_len(pieces_from(rest, cur, limit)[k])
            >= limit,
    decreases rest.len(),
{
    if rest.len() > 0 {
        let grown = cur.push(rest.first());
        lemma_byte_len_push(cur, rest.first());
        if byte_len(grown) >= limit {
            if k > 0 {
                assert(byte_len(Seq::<char>::empty()) == 0);
                lemma_pieces_size(rest.drop_first(), seq![], limit, k - 1);
            }
        } else {
            lemma_pieces_size(rest.drop_first(), grown, limit, k);
        }
    }
}

/// No piece of a block is empty or takes four bytes more than the limit, and
/// none but the last takes less than the limit.
pub proof fn law_piece_sizes(block: Seq<char>, limit: nat, k: int)
    requires
        limit > 0,
        0 <= k < block_pieces(block, limit).len(),
    ensures
        block_pieces(block, limit)[k].len() > 0,
        byte_len(block_pieces(block, limit)[k]) < limit + 4,
        k < block_pieces(block, limit).len() - 1 ==> byte_len(block_pieces(block, limit)[k])
            >= limit,
{
    assert(byte_len(Seq::<char>::empty()) == 0);
    lemma_pieces_size(block, seq![], limit, k);
}

/// Whether a packing holds no empty chunk and none above the limit by four bytes.
spec fn well_packed(p: Packing, limit: nat) -> bool {
    &&& byte_len(p.open) <= limit
    &&& forall|k: int|
        0 <= k < p.closed.len() ==> (#[trigger] p.closed[k]).len() > 0 && byte_len(p.closed[k])
            < limit + 4
}

proof fn lemma_pack_block(p: Packing, raw: Seq<char>, limit: nat)
    requires
        limit > 0,
        well_packed(p, limit),
    ensures
        well_packed(pack_block(p, raw, limit), limit),
        ink(joined(pack_block(p, raw, limit).closed) + pack_block(p, raw, limit).open) == ink(
            joined(p.closed) + p.open,
        ) + ink(raw),
{
    let block = trim(raw);
    lemma_ink_trim(raw);
    assert(byte_len(Seq::<char>::empty()) == 0);
    let before = joined(p.closed) + p.open;
    if block.len() == 0 {
        lemma_ink_blank(block);
        assert(ink(before) + ink(raw) =~= ink(before));
    } else {
        let projected = if p.open.len() == 0 {
            byte_len(block)
        } else {
            byte_len(p.open) + 2 + byte_len(block)
        };
        let q = if projected > limit && p.open.len() > 0 {
            Packing { closed: p.closed.push(p.open), open: seq![] }
        } else {
            p
        };
        assert(joined(q.closed) + q.open =~= before) by {
            if projected > limit && p.open.len() > 0 {
                lemma_joined_push(p.closed, p.open);
            }
        }
        let r = pack_block(p, raw, limit);
        lemma_ink_concat(before, block);
        if byte_len(block) > limit {
            assert(q.open.len() == 0);
            law_pieces_cover_block(block, limit);
            lemma_joined_concat(q.closed, block_pieces(block, limit));
            assert(joined(r.closed) + r.open =~= before + block);
            assert forall|k: int| 0 <= k < r.closed.len() implies (#[trigger] r.closed[k]).len() > 0
                && byte_len(r.closed[k]) < limit + 4 by {
                if k >= q.closed.len() {
                    law_piece_sizes(block, limit, k - q.closed.len());
                }
            }
        } else if q.open.len() == 0 {
            assert(joined(r.closed) + r.open =~= before + block);
        } else {
            reveal_strlit("\n\n");
            let gap = "\n\n"@;
            lemma_ink_blank(gap);
            lemma_byte_len_concat(q.open + gap, block);
            lemma_byte_len_concat(q.open, gap);
            assert(byte_len(gap) == 2) by {
                let one = seq!['\n'];
                assert(gap =~= Seq::<char>::empty().push('\n').push('\n'));
                lemma_byte_len_push(Seq::<char>::empty(), '\n');
                lemma_byte_len_push(Seq::<char>::empty().push('\n'), '\n');
            }
            assert(joined(r.closed) + r.open =~= before + gap + block);
            lemma_ink_concat(before + gap, block);
            lemma_ink_concat(before, gap);
            assert(ink(before) + ink(gap) =~= ink(before));
        }
    }
}

proof fn lemma_pack_blocks(blocks: Seq<Seq<char>>, limit: nat)
    requires
        limit > 0,
    ensures
        well_packed(pack_blocks(blocks, limit), limit),
        ink(joined(pack_blocks(blocks, limit).closed) + pack_blocks(blocks, limit).open) == ink(
            joined(blocks),
        ),
    decreases blocks.len(),
{
    if blocks.len() == 0 {
        assert(byte_len(Seq::<char>::empty()) == 0);
        let p = pack_blocks(blocks, limit);
        assert(joined(p.closed) + p.open =~= Seq::<char>::empty());
    } else {
        lemma_pack_blocks(blocks.drop_last(), limit);
        lemma_pack_block(pack_blocks(blocks.drop_last(), limit), blocks.last(), limit);
        lemma_ink_concat(joined(blocks.drop_last()), blocks.last());
    }
}

/// The chunks of a document hold all of its body but white space, in order and
/// with nothing added to it.
pub proof fn law_chunks_keep_the_body(content: Seq<char>, max_chars: usize)
    ensures
        ink(joined(chunk_texts(content, max_chars))) == ink(document_body(content)),
{
    let body = document_body(content);
    let blocks = split(body, "\n\n"@);
    let limit = chunk_limit(max_chars);
    let p = pack_blocks(blocks, limit);
    lemma_pack_blocks(blocks, limit);
    reveal_strlit("\n\n");
    lemma_ink_blank("\n\n"@);
    lemma_ink_split(body, "\n\n"@);
    lemma_ink_concat(joined(p.closed), p.open);
    if trim(p.open).len() > 0 {
        lemma_joined_push(p.closed, p.open);
    } else {
        lemma_ink_trim(p.open);
        lemma_ink_blank(trim(p.open));
        assert(ink(joined(p.closed)) + ink(p.open) =~= ink(joined(p.closed)));
    }
}

/// No chunk is empty, and none takes four bytes more than the limit.
pub proof fn law_chunk_sizes(content: Seq<char>, max_chars: usize, k: int)
    requires
        0 <= k < chunk_texts(content, max_chars).len(),
    ensures
        chunk_texts(content, max_chars)[k].len() > 0,
        byte_len(chunk_texts(content, max_chars)[k]) < chunk_limit(max_chars) + 4,
{
    let blocks = split(document_body(content), "\n\n"@);
    lemma_pack_blocks(blocks, chunk_limit(max_chars));
}

/// The chunks of a document are numbered from zero upwards.
pub proof fn law_chunks_are_numbered(path: Seq<char>, content: Seq<char>, max_chars: usize, k: int)
    requires
        0 <= k < chunks_of(path, content, max_chars).len(),
        k <= i32::MAX,
    ensures
        chunks_of(path, content, max_chars)[k].1 == k,
{
}

/// Chunks are cut to the size that is asked for, and to none below the least.
pub proof fn law_chunk_limit(max_chars: usize)
    ensures
        chunk_limit(max_chars) >= max_chars,
        chunk_limit(max_chars) >= 256,
        chunk_limit(max_chars) == max_chars || chunk_limit(max_chars) == 256,
{
}

/// The paragraphs of some blocks: the blocks without white space around them, and
/// without those that are blank.
pub open spec fn paragraphs(blocks: Seq<Seq<char>>) -> Seq<Seq<char>>
    decreases blocks.len(),
{
    if blocks.len() == 0 {
        seq![]
    } else if trim(blocks.last()).len() > 0 {
        paragraphs(blocks.drop_last()).push(trim(blocks.last()))
    } else {
        paragraphs(blocks.drop_last())
    }
}

/// Paragraphs with an empty line between them.
pub open spec fn set_apart(ps: Seq<Seq<char>>) -> Seq<char>
    decreases ps.len(),
{
    if ps.len() == 0 {
        seq![]
    } else if ps.len() == 1 {
        ps[0]
    } else {
        set_apart(ps.drop_last()) + "\n\n"@ + ps.last()
    }
}

proof fn lemma_gap()
    ensures
        byte_len("\n\n"@) == 2,
        "\n\n"@.len() == 2,
{
    reveal_strlit("\n\n");
    let gap = "\n\n"@;
    assert(byte_len(Seq::<char>::empty()) == 0);
    assert(gap =~= Seq::<char>::empty().push('\n').push('\n'));
    lemma_byte_len_push(Seq::<char>::empty(), '\n');
    lemma_byte_len_push(Seq::<char>::empty().push('\n'), '\n');
}

proof fn lemma_paragraph_ink(raw: Seq<char>)
    requires
        trim(raw).len() > 0,
    ensures
        ink(trim(raw)).len() > 0,
{
    let t = trim(raw);
    lemma_trim_ends(raw);
    let one = seq![t.first()];
    assert(t =~= one + t.drop_first());
    lemma_ink_concat(one, t.drop_first());
    assert(one.drop_last() =~= Seq::<char>::empty());
    assert(ink(one.drop_last()) =~= Seq::<char>::empty());
    assert(one.last() == t.first());
    assert(ink(one) =~= one);
}

proof fn lemma_one_chunk(blocks: Seq<Seq<char>>, limit: nat)
    requires
        limit > 0,
        byte_len(set_apart(paragraphs(blocks))) <= limit,
    ensures
        pack_blocks(blocks, limit).closed.len() == 0,
        pack_blocks(blocks, limit).open == set_apart(paragraphs(blocks)),
        paragraphs(blocks).len() == 0 <==> set_apart(paragraphs(blocks)).len() == 0,
        paragraphs(blocks).len() > 0 ==> ink(set_apart(paragraphs(blocks))).len() > 0,
    decreases blocks.len(),
{
    assert(byte_len(Seq::<char>::empty()) == 0);
    if blocks.len() > 0 {
        let front = blocks.drop_last();
        let ps = paragraphs(front);
        let block = trim(blocks.last());
        if block.len() > 0 {
            let all = paragraphs(blocks);
            assert(all.drop_last() =~= ps);
            lemma_gap();
            if ps.len() > 0 {
                lemma_byte_len_concat(set_apart(ps) + "\n\n"@, block);
                lemma_byte_len_concat(set_apart(ps), "\n\n"@);
                lemma_ink_concat(set_apart(ps) + "\n\n"@, block);
            } else {
                assert(set_apart(ps).len() == 0);
                assert(set_apart(all) == block);
            }
            lemma_paragraph_ink(blocks.last());
            lemma_one_chunk(front, limit);
        } else {
            lemma_one_chunk(front, limit);
        }
    }
}

/// No needless cuts: a document whose paragraphs, with empty lines between them,
/// take no more than the size that is asked for, or than the least size, is one
/// chunk with just these; one without paragraphs has no chunk.
pub proof fn law_what_fits_is_one_chunk(content: Seq<char>, max_chars: usize)
    ensures
        ({
            let ps = paragraphs(split(document_body(content), "\n\n"@));
            &&& ps.len() > 0 && (byte_len(set_apart(ps)) <= max_chars || byte_len(set_apart(ps))
                <= 256) ==> chunk_texts(content, max_chars) == seq![set_apart(ps)]
            &&& ps.len() == 0 ==> chunk_texts(content, max_chars).len() == 0
        }),
{
    let blocks = split(document_body(content), "\n\n"@);
    let ps = paragraphs(blocks);
    let limit = chunk_limit(max_chars);
    assert(byte_len(Seq::<char>::empty()) == 0);
    if ps.len() == 0 {
        assert(set_apart(ps) =~= Seq::<char>::empty());
    }
    if byte_len(set_apart(ps)) <= limit {
        lemma_one_chunk(blocks, limit);
        let p = pack_blocks(blocks, limit);
        lemma_ink_trim(p.open);
        if ps.len() > 0 {
            if trim(p.open).len() == 0 {
                lemma_ink_blank(trim(p.open));
            }
            assert(chunk_texts(content, max_chars) =~= seq![set_apart(ps)]);
        } else {
            assert(p.open =~= Seq::<char>::empty());
        }
    }
}

/// Whether a text stands in one of some texts.
pub open spec fn stands_in(q: Seq<char>, s: Seq<Seq<char>>) -> bool {
    exists|k: int| 0 <= k < s.len() && contains_text(#[trigger] s[k], q)
}

proof fn lemma_stands_whole(a: Seq<char>, q: Seq<char>, b: Seq<char>)
    ensures
        contains_text(a + q + b, q),
{
    let s = a + q + b;
    assert(s.subrange(a.len() as int, a.len() as int + q.len()) =~= q);
    assert(occurs_at(s, q, a.len() as int));
}

proof fn lemma_stands_longer(a: Seq<char>, q: Seq<char>, b: Seq<char>)
    requires
        contains_text(a, q),
    ensures
        contains_text(a + b, q),
{
    let i = choose|i: int| occurs_at(a, q, i);
    assert((a + b).subrange(i, i + q.len()) =~= a.subrange(i, i + q.len()));
    assert(occurs_at(a + b, q, i));
}

/// What holds while paragraphs are packed: each that fits stands in a chunk.
spec fn kept_whole(p: Packing, blocks: Seq<Seq<char>>, limit: nat) -> bool {
    forall|i: int|
        0 <= i < blocks.len() && trim(#[trigger] blocks[i]).len() > 0 && byte_len(trim(blocks[i]))
            <= limit ==> stands_in(trim(blocks[i]), p.closed) || contains_text(
            p.open,
            trim(blocks[i]),
        )
}

proof fn lemma_kept_whole(blocks: Seq<Seq<char>>, limit: nat)
    ensures
        kept_whole(pack_blocks(blocks, limit), blocks, limit),
    decreases blocks.len(),
{
    if blocks.len() > 0 {
        let front = blocks.drop_last();
        lemma_kept_whole(front, limit);
        let p = pack_blocks(front, limit);
        let raw = blocks.last();
        let block = trim(raw);
        let r = pack_blocks(blocks, limit);
        assert(r == pack_block(p, raw, limit));
        assert forall|i: int|
            0 <= i < blocks.len() && trim(#[trigger] blocks[i]).len() > 0 && byte_len(
                trim(blocks[i]),
            ) <= limit implies stands_in(trim(blocks[i]), r.closed) || contains_text(
            r.open,
            trim(blocks[i]),
        ) by {
            let q = trim(blocks[i]);
            if i < front.len() {
                assert(front[i] == blocks[i]);
                if stands_in(q, p.closed) {
                    let k = choose|k: int|
                        0 <= k < p.closed.len() && contains_text(
                            #[trigger] p.closed[k],
                            q,
                        );
                    assert(r.closed[k] == p.closed[k]);
                } else {
                    assert(contains_text(p.open, q));
                    let m = p.closed.len() as int;
                    if r.closed.len() > m && r.closed[m] == p.open {
                        assert(contains_text(r.closed[m], q));
                    } else if block.len() > 0 {
                        if p.open.len() == 0 {
                            assert(q.len() == 0) by {
                                let j = choose|j: int| occurs_at(p.open, q, j);
                            }
                        } else {
                            lemma_stands_longer(p.open, q, "\n\n"@ + block);
                            assert(p.open + ("\n\n"@ + block) =~= p.open + "\n\n"@ + block);
                        }
                    }
                }
            } else {
                assert(q == block);
                let none = Seq::<char>::empty();
                lemma_stands_whole(none, block, none);
                assert(none + block + none =~= block);
                lemma_stands_whole(p.open + "\n\n"@, block, none);
                assert(p.open + "\n\n"@ + block + none =~= p.open + "\n\n"@ + block);
            }
        }
    }
}

/// A paragraph that fits in a chunk is not torn: it stands in one of the chunks.
pub proof fn law_fitting_paragraphs_are_kept_whole(content: Seq<char>, max_chars: usize, i: int)
    requires
        0 <= i < split(document_body(content), "\n\n"@).len(),
    ensures
        ({
            let q = trim(split(document_body(content), "\n\n"@)[i]);
            q.len() > 0 && (byte_len(q) <= max_chars || byte_len(q) <= 256) ==> stands_in(
                q,
                chunk_texts(content, max_chars),
            )
        }),
{
    let blocks = split(document_body(content), "\n\n"@);
    let limit = chunk_limit(max_chars);
    lemma_kept_whole(blocks, limit);
    let q = trim(blocks[i]);
    let p = pack_blocks(blocks, limit);
    let cs = chunk_texts(content, max_chars);
    if q.len() > 0 && byte_len(q) <= limit {
        if stands_in(q, p.closed) {
            let k = choose|k: int|
                0 <= k < p.closed.len() && contains_text(#[trigger] p.closed[k], q);
            assert(cs[k] == p.closed[k]);
        } else {
            let j = choose|j: int| occurs_at(p.open, q, j);
            assert(p.open =~= p.open.take(j) + p.open.subrange(j, j + q.len()) + p.open.skip(
                j + q.len(),
            ));
            lemma_paragraph_ink(blocks[i]);
            lemma_ink_concat(p.open.take(j) + q, p.open.skip(j + q.len()));
            lemma_ink_concat(p.open.take(j), q);
            lemma_ink_trim(p.open);
            if trim(p.open).len() == 0 {
                lemma_ink_blank(trim(p.open));
            }
            assert(cs[p.closed.len() as int] == p.open);
        }
    }
}

/// What holds while paragraphs are packed that all fit: no two neighbours would
/// have fitted in one chunk.
spec fn tight(p: Packing, limit: nat) -> bool {
    &&& forall|k: int|
        0 <= k < p.closed.len() - 1 ==> byte_len(#[trigger] p.closed[k]) + 2 + byte_len(
            p.closed[k + 1],
        ) > limit
    &&& p.closed.len() > 0 ==> p.open.len() > 0 && byte_len(p.closed.last()) + 2 + byte_len(p.open)
        > limit
}

proof fn lemma_tight(blocks: Seq<Seq<char>>, limit: nat)
    requires
        forall|i: int| 0 <= i < blocks.len() ==> byte_len(trim(#[trigger] blocks[i])) <= limit,
    ensures
        tight(pack_blocks(blocks, limit), limit),
    decreases blocks.len(),
{
    if blocks.len() > 0 {
        let front = blocks.drop_last();
        assert forall|i: int| 0 <= i < front.len() implies byte_len(trim(#[trigger] front[i]))
            <= limit by {
            assert(front[i] == blocks[i]);
        }
        lemma_tight(front, limit);
        let p = pack_blocks(front, limit);
        let block = trim(blocks[blocks.len() - 1]);
        let r = pack_blocks(blocks, limit);
        lemma_byte_len_concat(p.open + "\n\n"@, block);
        lemma_byte_len_concat(p.open, "\n\n"@);
        assert(r == pack_block(p, blocks.last(), limit));
        assert forall|k: int| 0 <= k < r.closed.len() - 1 implies byte_len(#[trigger] r.closed[k])
            + 2 + byte_len(r.closed[k + 1]) > limit by {
            if k + 1 < p.closed.len() {
                assert(r.closed[k] == p.closed[k] && r.closed[k + 1] == p.closed[k + 1]);
            } else {
                assert(r.closed[k] == p.closed.last());
            }
        }
    }
}

/// Chunks are filled: where every paragraph fits in a chunk, no chunk could have
/// taken in the next one.
pub proof fn law_chunks_are_filled(content: Seq<char>, max_chars: usize, k: int)
    requires
        forall|i: int|
            #![trigger split(document_body(content), "\n\n"@)[i]]
            0 <= i < split(document_body(content), "\n\n"@).len() ==> byte_len(
                trim(split(document_body(content), "\n\n"@)[i]),
            ) <= max_chars,
        0 <= k < chunk_texts(content, max_chars).len() - 1,
    ensures
        byte_len(chunk_texts(content, max_chars)[k]) + 2 + byte_len(
            chunk_texts(content, max_chars)[k + 1],
        ) > max_chars,
{
    let blocks = split(document_body(content), "\n\n"@);
    lemma_tight(blocks, chunk_limit(max_chars));
    let p = pack_blocks(blocks, chunk_limit(max_chars));
    let cs = chunk_texts(content, max_chars);
    if k + 1 < p.closed.len() {
        assert(cs[k] == p.closed[k] && cs[k + 1] == p.closed[k + 1]);
    } else {
        assert(cs[k] == p.closed.last());
        assert(cs[k + 1] == p.open);
    }
}

/// Each chunk of a document carries its text, and an identifier that is made of the
/// document's path, the chunk's number and the digest of its text.
pub proof fn law_chunks_are_identified(
    path: Seq<char>,
    content: Seq<char>,
    max_chars: usize,
    k: int,
)
    requires
        0 <= k < chunk_texts(content, max_chars).len(),
        k <= i32::MAX,
    ensures
        chunks_of(path, content, max_chars).len() == chunk_texts(content, max_chars).len(),
        chunks_of(path, content, max_chars)[k].2 == chunk_texts(content, max_chars)[k],
        chunks_of(path, content, max_chars)[k].0 == "mw_"@ + text_digest(
            path + "\0"@ + decimal_int(k) + "\0"@ + text_digest(chunk_texts(content, max_chars)[k]),
        ).take(24),
{
}

} // verus!
