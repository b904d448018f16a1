//! Paragraph chunking: documents are cut at blank lines, small paragraphs
//! are merged up to a budget with some overlap carried over, and pieces that
//! stay far above the budget are cut again, preferably at sentence ends.

use vstd::prelude::*;

use crate::document::{fresh_ids, fresh_uuids, Chunk, Document};
use crate::error::CortexError;
use crate::text::{
    copy_range, extend_chars, find_from, find_from_exec, is_ws, lemma_find_from_before,
    lemma_find_from_result, lemma_rfind_matches, lemma_trim_first, lemma_trim_is_piece,
    lemma_trim_keeps_text, lemma_utf8_len_bounds, lemma_utf8_len_encode, lemma_utf8_len_subrange,
    matches_at, rfind, rfind_below, rfind_exec, string_from_chars, string_from_range, to_chars, trim, trim_range,
    utf8_len, utf8_len_range,
};
use crate::traits::Chunker;

verus! {

broadcast use vstd::string::group_string_axioms;

// ---------------------------------------------------------------------------
// Specification
// ---------------------------------------------------------------------------

/// The paragraph separator, a blank line.
pub open spec fn blank_line() -> Seq<char> {
    seq!['\n', '\n']
}

/// A sentence end followed by a space.
pub open spec fn sentence_break() -> Seq<char> {
    seq!['.', ' ']
}

/// `p` alone if it is non-empty, nothing otherwise.
pub open spec fn keep_if_nonempty(p: Seq<char>) -> Seq<Seq<char>> {
    if p.len() > 0 {
        seq![p]
    } else {
        seq![]
    }
}

/// The trimmed, non-empty pieces of `t[pos..]` between blank lines.
pub open spec fn paragraphs_from(t: Seq<char>, pos: nat) -> Seq<Seq<char>>
    decreases t.len() + 1 - pos,
{
    if pos > t.len() {
        seq![]
    } else {
        match find_from(t, blank_line(), pos) {
            Some(i) => {
                proof {
                    lemma_find_from_result(t, blank_line(), pos);
                }
                keep_if_nonempty(trim(t.subrange(pos as int, i as int))) + paragraphs_from(
                    t,
                    i + 2,
                )
            },
            None => keep_if_nonempty(trim(t.subrange(pos as int, t.len() as int))),
        }
    }
}

/// The paragraphs of a text: its pieces between blank lines, trimmed, empty ones dropped.
pub open spec fn paragraphs(t: Seq<char>) -> Seq<Seq<char>> {
    paragraphs_from(t, 0)
}

/// The last `n` characters of `s`, cut after the first space among them;
/// all of `s` when it is no longer than `n`.
pub open spec fn tail_at_word(s: Seq<char>, n: nat) -> Seq<char> {
    if s.len() <= n {
        s
    } else {
        let tail = s.skip(s.len() - n);
        match find_from(tail, seq![' '], 0) {
            Some(p) => tail.skip(p + 1int),
            None => tail,
        }
    }
}

/// State of the merging pass: finished pieces (text, start position in
/// characters), the piece being built, the search position, and where the
/// piece being built starts.
pub struct MergeState {
    pub done: Seq<(Seq<char>, nat)>,
    pub cur: Seq<char>,
    pub pos: nat,
    pub start: nat,
}

/// The merging pass before any paragraph.
pub open spec fn merge_init() -> MergeState {
    MergeState { done: seq![], cur: seq![], pos: 0, start: 0 }
}

/// One paragraph `p` of text `t` taken into the merging pass, with a budget of
/// `max` bytes and an overlap of `ov` characters.
pub open spec fn merge_step(t: Seq<char>, max: nat, ov: nat, st: MergeState, p: Seq<char>) -> MergeState {
    let at = match find_from(t, p, st.pos) {
        Some(i) => i,
        None => st.pos,
    };
    if st.cur.len() == 0 {
        MergeState { done: st.done, cur: p, pos: at + p.len(), start: at }
    } else if utf8_len(st.cur) + utf8_len(p) + 2 <= max {
        MergeState { done: st.done, cur: st.cur + blank_line() + p, pos: at + p.len(), start: st.start }
    } else {
        let o = tail_at_word(st.cur, ov);
        MergeState {
            done: st.done.push((st.cur, st.start)),
            cur: if o.len() == 0 {
                p
            } else {
                o + blank_line() + p
            },
            pos: at + p.len(),
            start: at,
        }
    }
}

/// The merging pass after the first `k` paragraphs of `ps`.
pub open spec fn merge_upto(t: Seq<char>, ps: Seq<Seq<char>>, max: nat, ov: nat, k: nat) -> MergeState
    decreases k,
{
    if k == 0 {
        merge_init()
    } else {
        merge_step(t, max, ov, merge_upto(t, ps, max, ov, (k - 1) as nat), ps[k - 1])
    }
}

/// The merged pieces of `t`: text and start position in characters.
pub open spec fn merged_pieces(t: Seq<char>, max: nat, ov: nat) -> Seq<(Seq<char>, nat)> {
    let ps = paragraphs(t);
    let st = merge_upto(t, ps, max, ov, ps.len());
    if st.cur.len() > 0 {
        st.done.push((st.cur, st.start))
    } else {
        st.done
    }
}

/// Pieces of `c[cs..]` at most `max` characters long, cut after the last
/// sentence break within reach when there is one: trimmed text and byte
/// offset in `c`. Empty pieces are dropped.
pub open spec fn split_from(c: Seq<char>, max: nat, cs: nat) -> Seq<(Seq<char>, nat)>
    decreases c.len() - cs,
{
    if max == 0 || cs >= c.len() {
        seq![]
    } else {
        let ce: nat = if cs + max < c.len() {
            cs + max
        } else {
            c.len()
        };
        let act: nat = if ce < c.len() {
            match rfind(c.subrange(cs as int, ce as int), sentence_break()) {
                Some(j) => cs + j + 2,
                None => ce,
            }
        } else {
            ce
        };
        let piece = trim(c.subrange(cs as int, act as int));
        proof {
            lemma_rfind_matches(
                c.subrange(cs as int, ce as int),
                sentence_break(),
                (ce - cs + 1) as nat,
            );
        }
        (if piece.len() > 0 {
            seq![(piece, utf8_len(c.take(cs as int)))]
        } else {
            seq![]
        }) + split_from(c, max, act)
    }
}

/// The pieces `split_large_text` cuts `c` into.
pub open spec fn split_pieces(c: Seq<char>, max: nat) -> Seq<(Seq<char>, nat)> {
    split_from(c, max, 0)
}

/// What a merged piece of `t` becomes: cut again when it is more than twice
/// the budget in bytes, kept whole otherwise, with its byte offset in `t`.
pub open spec fn expand_piece(t: Seq<char>, max: nat, m: (Seq<char>, nat)) -> Seq<(Seq<char>, nat)> {
    if utf8_len(m.0) > 2 * max {
        split_pieces(m.0, max)
    } else {
        seq![(m.0, utf8_len(t.take(m.1 as int)))]
    }
}

/// The final pieces coming from the first `k` merged pieces `ms`.
pub open spec fn final_upto(t: Seq<char>, ms: Seq<(Seq<char>, nat)>, max: nat, k: nat) -> Seq<
    (Seq<char>, nat),
>
    decreases k,
{
    if k == 0 {
        seq![]
    } else {
        final_upto(t, ms, max, (k - 1) as nat) + expand_piece(t, max, ms[k - 1])
    }
}

/// The chunks of text `t` (text and byte offset), in order, for a budget of
/// `max` bytes and an overlap of `ov` characters.
pub open spec fn chunk_pieces(t: Seq<char>, max: nat, ov: nat) -> Seq<(Seq<char>, nat)> {
    if trim(t).len() == 0 {
        seq![]
    } else {
        let ms = merged_pieces(t, max, ov);
        final_upto(t, ms, max, ms.len())
    }
}

/// The inputs on which chunking runs to completion: the text's byte length
/// and that of every merged piece fit in `usize`, a positive budget whenever
/// there is text, and chunk indices that fit in `u32`.
pub open spec fn chunkable(t: Seq<char>, max: nat, ov: nat) -> bool {
    &&& utf8_len(t) <= usize::MAX
    &&& (max > 0 || trim(t).len() == 0)
    &&& forall|i: int|
        0 <= i < merged_pieces(t, max, ov).len() ==> utf8_len(#[trigger] merged_pieces(
            t,
            max,
            ov,
        )[i].0) <= usize::MAX
    &&& chunk_pieces(t, max, ov).len() <= u32::MAX
}

/// `c` is the chunk of document `doc_id` with text and offset `piece` at
/// `index` (its identifier aside).
pub open spec fn chunk_is(c: Chunk, doc_id: Seq<char>, piece: (Seq<char>, nat), index: int) -> bool {
    &&& c.document_id@ == doc_id
    &&& c.content@ == piece.0
    &&& c.byte_offset == piece.1
    &&& c.chunk_index == index
    &&& c.token_count == utf8_len(piece.0) / 4
}

/// The identifiers of the chunks `v`.
pub open spec fn chunk_ids(v: Seq<Chunk>) -> Seq<Seq<char>> {
    v.map_values(|c: Chunk| c.id@)
}

/// The chunks `v` have UUIDs, no two alike.
pub open spec fn chunk_ids_fresh(v: Seq<Chunk>) -> bool {
    fresh_uuids(chunk_ids(v))
}

/// `c` and `d` are the same chunk but perhaps for their identifiers.
pub open spec fn same_but_id(c: Chunk, d: Chunk) -> bool {
    &&& c.document_id@ == d.document_id@
    &&& c.content@ == d.content@
    &&& c.byte_offset == d.byte_offset
    &&& c.chunk_index == d.chunk_index
    &&& c.token_count == d.token_count
}

/// `v` is the chunking of `doc` with budget `max` and overlap `ov`: one
/// chunk per piece of `chunk_pieces`, in order.
pub open spec fn chunks_of(doc: Document, max: nat, ov: nat, v: Seq<Chunk>) -> bool {
    &&& chunk_ids_fresh(v)
    &&& v.len() == chunk_pieces(doc.content@, max, ov).len()
    &&& forall|i: int|
        0 <= i < v.len() ==> chunk_is(#[trigger] v[i], doc.id@, chunk_pieces(doc.content@, max, ov)[i], i)
}

// ---------------------------------------------------------------------------
// Laws
// ---------------------------------------------------------------------------

/// A text that is empty or only whitespace has no chunks.
pub proof fn lemma_blank_text_has_no_chunks(t: Seq<char>, max: nat, ov: nat)
    requires
        trim(t).len() == 0,
    ensures
        chunk_pieces(t, max, ov).len() == 0,
{
}

/// A text with a character other than whitespace at or after `pos` has a
/// paragraph there.
proof fn lemma_paragraphs_exist(t: Seq<char>, pos: nat, q: int)
    requires
        pos <= q < t.len(),
        !is_ws(t[q]),
    ensures
        paragraphs_from(t, pos).len() > 0,
    decreases t.len() + 1 - pos,
{
    lemma_find_from_result(t, blank_line(), pos);
    match find_from(t, blank_line(), pos) {
        Some(i) => {
            let ii = i as int;
            assert(t.subrange(ii, ii + 2) == blank_line());
            assert(t[ii] == t.subrange(ii, ii + 2)[0]);
            assert(t[ii + 1] == t.subrange(ii, ii + 2)[1]);
            if q < i {
                let seg = t.subrange(pos as int, i as int);
                assert(seg[q - pos] == t[q]);
                lemma_trim_keeps_text(seg, q - pos);
            } else {
                assert(q != i && q != i + 1);
                lemma_paragraphs_exist(t, i + 2, q);
            }
        },
        None => {
            let seg = t.subrange(pos as int, t.len() as int);
            assert(seg[q - pos] == t[q]);
            lemma_trim_keeps_text(seg, q - pos);
        },
    }
}

/// Every paragraph starts with a character other than whitespace.
proof fn lemma_paragraphs_start(t: Seq<char>, pos: nat)
    ensures
        forall|i: int|
            0 <= i < paragraphs_from(t, pos).len() ==> (#[trigger] paragraphs_from(t, pos)[i]).len()
                > 0 && !is_ws(paragraphs_from(t, pos)[i][0]),
    decreases t.len() + 1 - pos,
{
    if pos <= t.len() {
        lemma_find_from_result(t, blank_line(), pos);
        match find_from(t, blank_line(), pos) {
            Some(i) => {
                let head = trim(t.subrange(pos as int, i as int));
                if head.len() > 0 {
                    lemma_trim_first(t.subrange(pos as int, i as int));
                }
                lemma_paragraphs_start(t, i + 2);
                let a = keep_if_nonempty(head);
                let b = paragraphs_from(t, i + 2);
                assert forall|k: int| 0 <= k < (a + b).len() implies (#[trigger] (a + b)[k]).len() > 0
                    && !is_ws((a + b)[k][0]) by {
                    if k < a.len() {
                        assert((a + b)[k] == head);
                    } else {
                        assert((a + b)[k] == b[k - a.len()]);
                    }
                }
            },
            None => {
                let head = trim(t.subrange(pos as int, t.len() as int));
                if head.len() > 0 {
                    lemma_trim_first(t.subrange(pos as int, t.len() as int));
                }
            },
        }
    }
}

/// After at least one paragraph, the piece being built holds the last
/// paragraph, and so a character other than whitespace.
proof fn lemma_merge_cur_has_text(t: Seq<char>, ps: Seq<Seq<char>>, max: nat, ov: nat, k: nat)
    requires
        0 < k <= ps.len(),
        ps[k - 1].len() > 0,
        !is_ws(ps[k - 1][0]),
    ensures
        exists|q: int|
            0 <= q < merge_upto(t, ps, max, ov, k).cur.len() && !is_ws(
                #[trigger] merge_upto(t, ps, max, ov, k).cur[q],
            ),
{
    let st = merge_upto(t, ps, max, ov, (k - 1) as nat);
    let p = ps[k - 1];
    let cur = merge_upto(t, ps, max, ov, k).cur;
    if st.cur.len() == 0 {
        assert(cur[0] == p[0]);
    } else if utf8_len(st.cur) + utf8_len(p) + 2 <= max {
        assert(cur[st.cur.len() + 2int] == p[0]);
    } else {
        let o = tail_at_word(st.cur, ov);
        if o.len() == 0 {
            assert(cur[0] == p[0]);
        } else {
            assert(cur[o.len() + 2int] == p[0]);
        }
    }
}

/// Cutting a text that has a character other than whitespace at or after
/// `cs` gives at least one piece, for a positive budget.
proof fn lemma_split_from_exists(c: Seq<char>, max: nat, cs: nat, q: int)
    requires
        max > 0,
        cs <= q < c.len(),
        !is_ws(c[q]),
    ensures
        split_from(c, max, cs).len() > 0,
    decreases c.len() - cs,
{
    let ce: nat = if cs + max < c.len() {
        cs + max
    } else {
        c.len()
    };
    lemma_rfind_matches(c.subrange(cs as int, ce as int), sentence_break(), (ce - cs + 1) as nat);
    let act: nat = if ce < c.len() {
        match rfind(c.subrange(cs as int, ce as int), sentence_break()) {
            Some(j) => cs + j + 2,
            None => ce,
        }
    } else {
        ce
    };
    assert(cs < act <= c.len());
    if q < act {
        let seg = c.subrange(cs as int, act as int);
        assert(seg[q - cs] == c[q]);
        lemma_trim_keeps_text(seg, q - cs);
    } else {
        lemma_split_from_exists(c, max, act, q);
    }
}

/// A text that is not blank has at least one chunk, for a positive budget.
pub proof fn lemma_text_has_chunks(t: Seq<char>, max: nat, ov: nat)
    requires
        trim(t).len() > 0,
        max > 0,
    ensures
        chunk_pieces(t, max, ov).len() > 0,
{
    lemma_trim_is_piece(t);
    let (a, b) = choose|a: int, b: int| 0 <= a <= b <= t.len() && trim(t) == t.subrange(a, b);
    lemma_trim_first(t);
    assert(t[a] == trim(t)[0]);
    lemma_paragraphs_exist(t, 0, a);
    let ps = paragraphs(t);
    lemma_paragraphs_start(t, 0);
    assert(ps[ps.len() - 1].len() > 0 && !is_ws(ps[ps.len() - 1][0]));
    lemma_merge_cur_has_text(t, ps, max, ov, ps.len());
    let st = merge_upto(t, ps, max, ov, ps.len());
    let q = choose|q: int| 0 <= q < st.cur.len() && !is_ws(#[trigger] st.cur[q]);
    let ms = merged_pieces(t, max, ov);
    let m = ms[ms.len() - 1];
    assert(m.0 == st.cur);
    let k = ms.len();
    assert(final_upto(t, ms, max, k) == final_upto(t, ms, max, (k - 1) as nat) + expand_piece(t, max, m));
    if utf8_len(m.0) > 2 * max {
        lemma_split_from_exists(m.0, max, 0, q);
    }
}

/// A search from the end finds nothing below `k` when nothing matches there.
proof fn lemma_rfind_none(h: Seq<char>, p: Seq<char>, k: nat)
    requires
        forall|j: int| 0 <= j < k ==> !#[trigger] matches_at(h, p, j),
    ensures
        rfind_below(h, p, k) is None,
    decreases k,
{
    if k > 0 {
        lemma_rfind_none(h, p, (k - 1) as nat);
    }
}

/// A search from the end below `k` finds the last match below `k`.
proof fn lemma_rfind_last(h: Seq<char>, p: Seq<char>, k: nat, j: nat)
    requires
        j < k,
        matches_at(h, p, j as int),
        forall|m: int| j < m < k ==> !#[trigger] matches_at(h, p, m),
    ensures
        rfind_below(h, p, k) == Some(j),
    decreases k,
{
    if k - 1 > j {
        lemma_rfind_last(h, p, (k - 1) as nat, j);
    }
}

/// A sentence break (". ") starts at position `k` of `c`.
pub open spec fn break_at(c: Seq<char>, k: int) -> bool {
    0 <= k && k + 1 < c.len() && c[k] == '.' && c[k + 1] == ' '
}

/// The piece that starts at `cs` and ends at `end`: the trimmed text
/// between them with its byte offset, or nothing when that is blank.
pub open spec fn piece_between(c: Seq<char>, cs: nat, end: nat) -> Seq<(Seq<char>, nat)> {
    let piece = trim(c.subrange(cs as int, end as int));
    if piece.len() > 0 {
        seq![(piece, utf8_len(c.take(cs as int)))]
    } else {
        seq![]
    }
}

/// Where a long piece is cut: a piece starting at `cs`, with more than
/// `max` characters left, ends right after the last sentence break (". ")
/// that fits within its first `max` characters, or exactly `max` characters
/// after its start when none does; the next piece starts there. With at
/// most `max` characters left, the rest is the last piece; with none left,
/// there is no piece.
pub proof fn lemma_split_cut(c: Seq<char>, max: nat, cs: nat)
    requires
        max > 0,
    ensures
        cs >= c.len() ==> split_from(c, max, cs) == Seq::<(Seq<char>, nat)>::empty(),
        cs < c.len() && cs + max >= c.len() ==> split_from(c, max, cs) == piece_between(
            c,
            cs,
            c.len(),
        ),
        cs + max < c.len() && (forall|k: int|
            cs <= k && k + 2 <= cs + max ==> !#[trigger] break_at(c, k)) ==> split_from(c, max, cs)
            == piece_between(c, cs, cs + max) + split_from(c, max, cs + max),
        forall|k: int|
            cs + max < c.len() && cs <= k && k + 2 <= cs + max && #[trigger] break_at(c, k) && (forall|
                m: int,
            | k < m && m + 2 <= cs + max ==> !#[trigger] break_at(c, m)) ==> split_from(c, max, cs)
                == piece_between(c, cs, (k + 2) as nat) + split_from(c, max, (k + 2) as nat),
{
    if cs < c.len() && cs + max >= c.len() {
        assert(split_from(c, max, c.len()) == Seq::<(Seq<char>, nat)>::empty());
        assert(split_from(c, max, cs) =~= piece_between(c, cs, c.len()));
    }
    if cs + max < c.len() {
        lemma_split_cut_inside(c, max, cs);
    }
}

proof fn lemma_split_cut_inside(c: Seq<char>, max: nat, cs: nat)
    requires
        max > 0,
        cs + max < c.len(),
    ensures
        (forall|k: int| cs <= k && k + 2 <= cs + max ==> !#[trigger] break_at(c, k)) ==> split_from(
            c,
            max,
            cs,
        ) == piece_between(c, cs, cs + max) + split_from(c, max, cs + max),
        forall|k: int|
            cs <= k && k + 2 <= cs + max && #[trigger] break_at(c, k) && (forall|m: int|
                k < m && m + 2 <= cs + max ==> !#[trigger] break_at(c, m)) ==> split_from(c, max, cs)
                == piece_between(c, cs, (k + 2) as nat) + split_from(c, max, (k + 2) as nat),
{
    let ce = cs + max;
    let w = c.subrange(cs as int, ce as int);
    let sb = sentence_break();
    assert forall|j: int| #[trigger] matches_at(w, sb, j) <==> (0 <= j && j + 2 <= w.len() && break_at(c, cs + j)) by {
        if 0 <= j && j + 2 <= w.len() {
            if w.subrange(j, j + 2) == sb {
                assert(w[j] == w.subrange(j, j + 2)[0]);
                assert(w[j + 1] == w.subrange(j, j + 2)[1]);
            }
            if break_at(c, cs + j) {
                assert(w.subrange(j, j + 2) =~= sb);
            }
        }
    }
    if forall|k: int| cs <= k && k + 2 <= cs + max ==> !#[trigger] break_at(c, k) {
        assert forall|j: int| 0 <= j < w.len() + 1 implies !#[trigger] matches_at(w, sb, j) by {
            if matches_at(w, sb, j) {
                assert(break_at(c, cs + j));
            }
        }
        lemma_rfind_none(w, sb, w.len() + 1);
    }
    assert forall|k: int|
        cs <= k && k + 2 <= cs + max && #[trigger] break_at(c, k) && (forall|m: int|
            k < m && m + 2 <= cs + max ==> !#[trigger] break_at(c, m)) implies split_from(c, max, cs)
        == piece_between(c, cs, (k + 2) as nat) + split_from(c, max, (k + 2) as nat) by {
        let j = k - cs;
        assert(matches_at(w, sb, j));
        assert forall|m: int| j < m < w.len() + 1 implies !#[trigger] matches_at(w, sb, m) by {
            if matches_at(w, sb, m) {
                assert(break_at(c, cs + m));
            }
        }
        lemma_rfind_last(w, sb, w.len() + 1, j as nat);
    }
}

/// Every piece the merging pass finishes has some text.
proof fn lemma_merge_upto_nonempty(t: Seq<char>, ps: Seq<Seq<char>>, max: nat, ov: nat, k: nat)
    ensures
        forall|i: int|
            0 <= i < merge_upto(t, ps, max, ov, k).done.len() ==> (#[trigger] merge_upto(
                t,
                ps,
                max,
                ov,
                k,
            ).done[i]).0.len() > 0,
    decreases k,
{
    if k > 0 {
        lemma_merge_upto_nonempty(t, ps, max, ov, (k - 1) as nat);
        let st = merge_upto(t, ps, max, ov, (k - 1) as nat);
        let st2 = merge_upto(t, ps, max, ov, k);
        assert forall|i: int| 0 <= i < st2.done.len() implies (#[trigger] st2.done[i]).0.len() > 0 by {
            if i < st.done.len() {
                assert(st2.done[i] == st.done[i]);
            }
        }
    }
}

/// Every merged piece has some text.
proof fn lemma_merged_nonempty(t: Seq<char>, max: nat, ov: nat)
    ensures
        forall|i: int|
            0 <= i < merged_pieces(t, max, ov).len() ==> (#[trigger] merged_pieces(
                t,
                max,
                ov,
            )[i]).0.len() > 0,
{
    let ps = paragraphs(t);
    lemma_merge_upto_nonempty(t, ps, max, ov, ps.len());
}

/// The pieces cut from `c[cs..]` have some text and at most `max` characters.
proof fn lemma_split_from_bounds(c: Seq<char>, max: nat, cs: nat)
    ensures
        forall|i: int|
            0 <= i < split_from(c, max, cs).len() ==> 0 < (#[trigger] split_from(c, max, cs)[i]).0.len()
                <= max,
    decreases c.len() - cs,
{
    if max > 0 && cs < c.len() {
        let ce: nat = if cs + max < c.len() {
            cs + max
        } else {
            c.len()
        };
        lemma_rfind_matches(c.subrange(cs as int, ce as int), sentence_break(), (ce - cs + 1) as nat);
        let act: nat = if ce < c.len() {
            match rfind(c.subrange(cs as int, ce as int), sentence_break()) {
                Some(j) => cs + j + 2,
                None => ce,
            }
        } else {
            ce
        };
        let seg = c.subrange(cs as int, act as int);
        lemma_trim_is_piece(seg);
        lemma_split_from_bounds(c, max, act);
        let rest = split_from(c, max, act);
        let all = split_from(c, max, cs);
        assert forall|i: int| 0 <= i < all.len() implies 0 < (#[trigger] all[i]).0.len() <= max by {
            if trim(seg).len() > 0 {
                if i > 0 {
                    assert(all[i] == rest[i - 1]);
                }
            } else {
                assert(all[i] == rest[i]);
            }
        }
    }
}

/// A chunk's text is not empty, and it is either a piece kept whole, of at
/// most twice the budget in bytes, or a piece cut from a longer one, of at
/// most the budget in characters; either way at most twice the budget in
/// characters.
pub open spec fn piece_within(p: (Seq<char>, nat), max: nat) -> bool {
    &&& 0 < p.0.len() <= 2 * max
    &&& (utf8_len(p.0) <= 2 * max || p.0.len() <= max)
}

/// The chunks coming from the first `k` merged pieces are within the budget
/// as `piece_within` says.
proof fn lemma_final_upto_bounds(t: Seq<char>, ms: Seq<(Seq<char>, nat)>, max: nat, k: nat)
    requires
        k <= ms.len(),
        forall|i: int| 0 <= i < ms.len() ==> (#[trigger] ms[i]).0.len() > 0,
    ensures
        forall|i: int|
            0 <= i < final_upto(t, ms, max, k).len() ==> piece_within(
                #[trigger] final_upto(t, ms, max, k)[i],
                max,
            ),
    decreases k,
{
    if k > 0 {
        lemma_final_upto_bounds(t, ms, max, (k - 1) as nat);
        let m = ms[k - 1];
        lemma_split_from_bounds(m.0, max, 0);
        lemma_utf8_len_bounds(m.0);
        let prev = final_upto(t, ms, max, (k - 1) as nat);
        let ex = expand_piece(t, max, m);
        let all = final_upto(t, ms, max, k);
        assert forall|i: int| 0 <= i < all.len() implies piece_within(#[trigger] all[i], max) by {
            if i < prev.len() {
                assert(all[i] == prev[i]);
            } else {
                assert(all[i] == ex[i - prev.len()]);
            }
        }
    }
}

/// Every chunk has some text, and no more than twice the budget in
/// characters: pieces kept whole are within twice the budget in bytes, and
/// pieces cut again hold at most the budget in characters.
pub proof fn lemma_chunk_pieces_bounds(t: Seq<char>, max: nat, ov: nat)
    ensures
        forall|i: int|
            0 <= i < chunk_pieces(t, max, ov).len() ==> piece_within(
                #[trigger] chunk_pieces(t, max, ov)[i],
                max,
            ),
{
    if trim(t).len() > 0 {
        let ms = merged_pieces(t, max, ov);
        lemma_merged_nonempty(t, max, ov);
        lemma_final_upto_bounds(t, ms, max, ms.len());
    }
}

// ---------------------------------------------------------------------------
// Paragraph splitting
// ---------------------------------------------------------------------------

/// Paragraphs `ps` lie in `t` at the increasing positions `spans`.
pub open spec fn spans_locate(t: Seq<char>, ps: Seq<Seq<char>>, spans: Seq<(nat, nat)>) -> bool {
    &&& spans.len() == ps.len()
    &&& forall|k: int|
        0 <= k < spans.len() ==> (#[trigger] spans[k]).0 <= spans[k].1 <= t.len() && ps[k]
            == t.subrange(spans[k].0 as int, spans[k].1 as int)
    &&& forall|k: int| 0 <= k < spans.len() - 1 ==> #[trigger] spans[k].1 <= spans[k + 1].0
}

/// The character vectors of `v`, as sequences.
pub open spec fn views_of(v: Seq<Vec<char>>) -> Seq<Seq<char>> {
    v.map_values(|x: Vec<char>| x@)
}

proof fn lemma_views_push(v: Seq<Vec<char>>, x: Vec<char>)
    ensures
        views_of(v.push(x)) == views_of(v).push(x@),
{
    assert(views_of(v.push(x)) =~= views_of(v).push(x@));
}

/// Adding a paragraph found after all earlier ones keeps the spans in order.
proof fn lemma_spans_push(
    t: Seq<char>,
    ps: Seq<Seq<char>>,
    spans: Seq<(nat, nat)>,
    a: nat,
    b: nat,
    pos: nat,
)
    requires
        spans_locate(t, ps, spans),
        forall|k: int| 0 <= k < spans.len() ==> #[trigger] spans[k].1 <= pos,
        pos <= a <= b <= t.len(),
    ensures
        spans_locate(t, ps.push(t.subrange(a as int, b as int)), spans.push((a, b))),
{
    let ps2 = ps.push(t.subrange(a as int, b as int));
    let sp2 = spans.push((a, b));
    assert forall|k: int| 0 <= k < sp2.len() - 1 implies #[trigger] sp2[k].1 <= sp2[k + 1].0 by {
        if k < spans.len() - 1 {
            assert(spans[k].1 <= spans[k + 1].0);
        } else {
            assert(spans[k].1 <= pos);
        }
    }
    assert forall|k: int| 0 <= k < sp2.len() implies (#[trigger] sp2[k]).0 <= sp2[k].1 <= t.len()
        && ps2[k] == t.subrange(sp2[k].0 as int, sp2[k].1 as int) by {
        if k < spans.len() {
            assert(ps2[k] == ps[k]);
            assert(sp2[k] == spans[k]);
        } else {
            assert(sp2[k] == (a, b));
        }
    }
    assert(sp2.len() == ps2.len());
}

/// The paragraphs of `t`, with where each one lies in `t`.
fn split_paragraphs(t: &Vec<char>) -> (r: (Vec<Vec<char>>, Ghost<Seq<(nat, nat)>>))
    ensures
        views_of(r.0@) == paragraphs(t@),
        spans_locate(t@, views_of(r.0@), r.1@),
{
    let sep: Vec<char> = vec!['\n', '\n'];
    assert(sep@ == blank_line());
    assert(sep@.len() == 2);
    let mut ps: Vec<Vec<char>> = Vec::new();
    let ghost mut spans: Seq<(nat, nat)> = seq![];
    let mut pos: usize = 0;
    loop
        invariant
            pos <= t@.len(),
            sep@ == blank_line(),
            sep@.len() == 2,
            views_of(ps@) + paragraphs_from(t@, pos as nat) == paragraphs(t@),
            spans_locate(t@, views_of(ps@), spans),
            forall|k: int| 0 <= k < spans.len() ==> #[trigger] spans[k].1 <= pos,
        decreases t@.len() + 1 - pos,
    {
        proof {
            lemma_find_from_result(t@, blank_line(), pos as nat);
        }
        match find_from_exec(t, &sep, pos) {
            Some(i) => {
                let (a, b) = trim_range(t, pos, i);
                let ghost old_ps = views_of(ps@);
                if a < b {
                    let piece = copy_range(t, a, b);
                    proof {
                        lemma_views_push(ps@, piece);
                        lemma_spans_push(t@, views_of(ps@), spans, a as nat, b as nat, pos as nat);
                    }
                    ps.push(piece);
                    proof {
                        spans = spans.push((a as nat, b as nat));
                    }
                }
                assert(views_of(ps@) == old_ps + keep_if_nonempty(
                    trim(t@.subrange(pos as int, i as int)),
                ));
                assert(i + 2 <= t.len());
                pos = i + 2;
            },
            None => {
                let (a, b) = trim_range(t, pos, t.len());
                let ghost old_ps = views_of(ps@);
                if a < b {
                    let piece = copy_range(t, a, b);
                    proof {
                        lemma_views_push(ps@, piece);
                        lemma_spans_push(t@, views_of(ps@), spans, a as nat, b as nat, pos as nat);
                    }
                    ps.push(piece);
                    proof {
                        spans = spans.push((a as nat, b as nat));
                    }
                }
                assert(views_of(ps@) == old_ps + keep_if_nonempty(
                    trim(t@.subrange(pos as int, t@.len() as int)),
                ));
                assert(views_of(ps@) == paragraphs(t@));
                return (ps, Ghost(spans));
            },
        }
    }
}

// ---------------------------------------------------------------------------
// Overlap
// ---------------------------------------------------------------------------

/// Where `tail_at_word(cur, n)` starts in `cur`.
fn tail_start(cur: &Vec<char>, n: usize) -> (r: usize)
    ensures
        r <= cur@.len(),
        cur@.skip(r as int) == tail_at_word(cur@, n as nat),
{
    if cur.len() <= n {
        assert(cur@.skip(0) =~= cur@);
        return 0;
    }
    let skip = cur.len() - n;
    let tail = copy_range(cur, skip, cur.len());
    assert(tail@ =~= cur@.skip(skip as int));
    let sp: Vec<char> = vec![' '];
    assert(sp@ == seq![' ']);
    match find_from_exec(&tail, &sp, 0) {
        Some(p) => {
            assert(tail@.skip(p + 1) =~= cur@.skip(skip + p + 1));
            skip + p + 1
        },
        None => skip,
    }
}

/// The overlap carried into the next chunk is the longest word-aligned
/// suffix within `n` characters: the whole text when it is no longer than
/// `n`; otherwise, of its last `n` characters, the part after the first
/// space among them, or all of them when they hold no space.
pub proof fn lemma_tail_after_first_space(s: Seq<char>, n: nat)
    ensures
        s.len() <= n ==> tail_at_word(s, n) == s,
        s.len() > n ==> (forall|k: int| 0 <= k < n ==> #[trigger] s.skip(s.len() - n)[k] != ' ')
            ==> tail_at_word(s, n) == s.skip(s.len() - n),
        forall|p: int|
            s.len() > n && 0 <= p < n && #[trigger] s.skip(s.len() - n)[p] == ' ' && (forall|k: int|
                0 <= k < p ==> #[trigger] s.skip(s.len() - n)[k] != ' ') ==> tail_at_word(s, n)
                == s.skip(s.len() - n + p + 1),
{
    if s.len() > n {
        let t = s.skip(s.len() - n);
        let sp = seq![' '];
        lemma_find_from_result(t, sp, 0);
        match find_from(t, sp, 0) {
            Some(j) => {
                let jj = j as int;
                assert(t.subrange(jj, jj + 1) == sp);
                assert(t[jj] == t.subrange(jj, jj + 1)[0]);
                assert(t.skip(jj + 1) =~= s.skip(s.len() - n + jj + 1));
                assert forall|p: int|
                    0 <= p < n && #[trigger] t[p] == ' ' && (forall|k: int|
                        0 <= k < p ==> #[trigger] t[k] != ' ') implies tail_at_word(s, n) == s.skip(
                    s.len() - n + p + 1,
                ) by {
                    assert(t.subrange(p, p + 1) =~= sp);
                    lemma_find_from_before(t, sp, 0, p as nat);
                    if jj < p {
                        assert(t[jj] != ' ');
                    }
                }
            },
            None => {
                assert forall|p: int| 0 <= p < n && #[trigger] t[p] == ' ' implies false by {
                    assert(t.subrange(p, p + 1) =~= sp);
                    lemma_find_from_before(t, sp, 0, p as nat);
                }
            },
        }
    }
}

/// Get the last `n` chars of a string, starting at a word boundary.
pub fn safe_tail(text: &str, n: usize) -> (r: &str)
    ensures
        r@ == tail_at_word(text@, n as nat),
{
    let v = to_chars(text);
    let s = tail_start(&v, n);
    let r = text.substring_char(s, v.len());
    assert(text@.subrange(s as int, v@.len() as int) =~= text@.skip(s as int));
    r
}

// ---------------------------------------------------------------------------
// Merging
// ---------------------------------------------------------------------------

/// The pieces held in `v`, as sequences.
pub open spec fn pieces_of(v: Seq<(Vec<char>, usize)>) -> Seq<(Seq<char>, nat)> {
    v.map_values(|x: (Vec<char>, usize)| (x.0@, x.1 as nat))
}

proof fn lemma_pieces_push(v: Seq<(Vec<char>, usize)>, x: (Vec<char>, usize))
    ensures
        pieces_of(v.push(x)) == pieces_of(v).push((x.0@, x.1 as nat)),
{
    assert(pieces_of(v.push(x)) =~= pieces_of(v).push((x.0@, x.1 as nat)));
}

/// The merged pieces of `t`, whose paragraphs `ps` lie at `spans`.
fn merge_paragraphs(
    t: &Vec<char>,
    ps: &Vec<Vec<char>>,
    Ghost(spans): Ghost<Seq<(nat, nat)>>,
    max: usize,
    ov: usize,
) -> (r: Vec<(Vec<char>, usize)>)
    requires
        views_of(ps@) == paragraphs(t@),
        spans_locate(t@, views_of(ps@), spans),
    ensures
        pieces_of(r@) == merged_pieces(t@, max as nat, ov as nat),
        forall|i: int| 0 <= i < r@.len() ==> (#[trigger] r@[i]).1 <= t@.len(),
{
    let ghost pv = views_of(ps@);
    let mut done: Vec<(Vec<char>, usize)> = Vec::new();
    let mut cur: Vec<char> = Vec::new();
    let mut pos: usize = 0;
    let mut start: usize = 0;
    let mut k: usize = 0;
    assert(pieces_of(done@) =~= seq![]);
    while k < ps.len()
        invariant
            k <= ps@.len(),
            pv == views_of(ps@),
            pv == paragraphs(t@),
            spans_locate(t@, pv, spans),
            merge_upto(t@, pv, max as nat, ov as nat, k as nat) == (MergeState {
                done: pieces_of(done@),
                cur: cur@,
                pos: pos as nat,
                start: start as nat,
            }),
            pos <= t@.len(),
            start <= t@.len(),
            k < ps@.len() ==> pos <= spans[k as int].0,
            forall|i: int| 0 <= i < done@.len() ==> (#[trigger] done@[i]).1 <= t@.len(),
        decreases ps@.len() - k,
    {
        let p = &ps[k];
        let ghost a = spans[k as int].0;
        let ghost b = spans[k as int].1;
        assert(pv[k as int] == p@);
        assert(p@ == t@.subrange(a as int, b as int));
        assert(matches_at(t@, p@, a as int)) by {
            assert(t@.subrange(a as int, a + p@.len() as int) =~= p@);
        }
        proof {
            lemma_find_from_before(t@, p@, pos as nat, a);
        }
        let at = match find_from_exec(t, p, pos) {
            Some(i) => i,
            None => pos,
        };
        assert(at <= a);
        let cur_len = utf8_len_range(&cur, 0, cur.len());
        let p_len = utf8_len_range(p, 0, p.len());
        assert(cur@.subrange(0, cur@.len() as int) =~= cur@);
        assert(p@.subrange(0, p@.len() as int) =~= p@);
        let ghost st = merge_upto(t@, pv, max as nat, ov as nat, k as nat);
        if cur.len() == 0 {
            cur = copy_range(p, 0, p.len());
            start = at;
        } else if cur_len + p_len + 2 <= max as u128 {
            cur.push('\n');
            cur.push('\n');
            extend_chars(&mut cur, p);
            assert(cur@ =~= st.cur + blank_line() + p@);
        } else {
            let o = tail_start(&cur, ov);
            let mut next: Vec<char>;
            if o == cur.len() {
                next = copy_range(p, 0, p.len());
            } else {
                next = copy_range(&cur, o, cur.len());
                next.push('\n');
                next.push('\n');
                extend_chars(&mut next, p);
                assert(cur@.subrange(o as int, cur@.len() as int) =~= cur@.skip(o as int));
                assert(next@ =~= tail_at_word(st.cur, ov as nat) + blank_line() + p@);
            }
            proof {
                lemma_pieces_push(done@, (cur, start));
            }
            let old_cur = cur;
            done.push((old_cur, start));
            cur = next;
            start = at;
        }
        assert(p@.len() == b - a && b <= t@.len());
        assert(at + p@.len() <= b);
        let tl = t.len();
        assert(at + p.len() <= tl);
        pos = at + p.len();
        k = k + 1;
        assert(k < ps@.len() ==> pos <= spans[k as int].0) by {
            if k < ps@.len() {
                assert(spans[k - 1].1 <= spans[k as int].0);
            }
        }
    }
    if cur.len() > 0 {
        proof {
            lemma_pieces_push(done@, (cur, start));
        }
        done.push((cur, start));
    }
    done
}

// ---------------------------------------------------------------------------
// Building chunks
// ---------------------------------------------------------------------------

/// A chunk of document `doc_id` with the given text, offset and index; its
/// identifier is given when the chunks of a text are complete.
fn make_chunk(doc_id: &str, content: &str, byte_offset: usize, chunk_index: u32) -> (c: Chunk)
    requires
        utf8_len(content@) <= usize::MAX,
    ensures
        chunk_is(c, doc_id@, (content@, byte_offset as nat), chunk_index as int),
{
    proof {
        lemma_utf8_len_encode(content@);
    }
    // Approximate token count (bytes / 4)
    let token_count = content.len() / 4;
    Chunk {
        id: String::new(),
        document_id: doc_id.to_string(),
        content: content.to_string(),
        byte_offset,
        chunk_index,
        token_count,
    }
}

/// Splits `text` into pieces of at most `max_chars` characters, breaking after
/// the last sentence end (". ") within reach when there is one; pieces are
/// trimmed, empty ones dropped, and numbered from `*idx` on.
pub fn split_large_text(doc_id: &str, text: &str, max_chars: usize, idx: &mut u32) -> (r: Vec<
    Chunk,
>)
    requires
        max_chars > 0,
        utf8_len(text@) <= usize::MAX,
        *old(idx) + split_pieces(text@, max_chars as nat).len() <= u32::MAX,
    ensures
        r@.len() == split_pieces(text@, max_chars as nat).len(),
        forall|i: int|
            0 <= i < r@.len() ==> chunk_is(
                #[trigger] r@[i],
                doc_id@,
                split_pieces(text@, max_chars as nat)[i],
                *old(idx) + i,
            ),
        chunk_ids_fresh(r@),
        *final(idx) == *old(idx) + r@.len(),
{
    let c = to_chars(text);
    let total = c.len();
    let sb: Vec<char> = vec!['.', ' '];
    assert(sb@ == sentence_break());
    let mut chunks: Vec<Chunk> = Vec::new();
    let ghost mut done: Seq<(Seq<char>, nat)> = seq![];
    let ghost first: int = *idx as int;
    let ghost all = split_pieces(c@, max_chars as nat);
    let mut cs: usize = 0;
    let mut bs: usize = 0;
    assert(c@.take(0) =~= Seq::<char>::empty());
    assert(done + split_from(c@, max_chars as nat, 0) =~= all);
    while cs < total
        invariant
            c@ == text@,
            total == c@.len(),
            cs <= total,
            sb@ == sentence_break(),
            max_chars > 0,
            utf8_len(c@) <= usize::MAX,
            all == split_pieces(c@, max_chars as nat),
            bs == utf8_len(c@.take(cs as int)),
            done + split_from(c@, max_chars as nat, cs as nat) == all,
            chunks@.len() == done.len(),
            forall|i: int|
                0 <= i < chunks@.len() ==> chunk_is(
                    #[trigger] chunks@[i],
                    doc_id@,
                    done[i],
                    first + i,
                ),
            *idx == first + chunks@.len(),
            first + all.len() <= u32::MAX,
        decreases total - cs,
    {
        let ce = if max_chars < total - cs {
            cs + max_chars
        } else {
            total
        };
        let act = if ce < total {
            let window = copy_range(&c, cs, ce);
            match rfind_exec(&window, &sb) {
                Some(j) => cs + j + 2,
                None => ce,
            }
        } else {
            ce
        };
        let (a, b) = trim_range(&c, cs, act);
        let ghost piece = trim(c@.subrange(cs as int, act as int));
        let ghost head: Seq<(Seq<char>, nat)> = if piece.len() > 0 {
            seq![(piece, bs as nat)]
        } else {
            seq![]
        };
        assert(split_from(c@, max_chars as nat, cs as nat) == head + split_from(
            c@,
            max_chars as nat,
            act as nat,
        ));
        proof {
            lemma_utf8_len_subrange(c@, cs as int, act as int);
            lemma_utf8_len_subrange(c@, 0, act as int);
            assert(c@.subrange(0, act as int) =~= c@.take(act as int));
        }
        if a < b {
            let s = string_from_range(&c, a, b);
            proof {
                lemma_utf8_len_subrange(c@, a as int, b as int);
                assert(done.len() + 1 <= all.len()) by {
                    assert((done + split_from(c@, max_chars as nat, cs as nat)).len() == all.len());
                }
            }
            let ch = make_chunk(doc_id, s.as_str(), bs, *idx);
            chunks.push(ch);
            *idx = *idx + 1;
            proof {
                done = done.push((piece, bs as nat));
                assert(done + split_from(c@, max_chars as nat, act as nat) =~= all);
            }
        } else {
            assert(done + split_from(c@, max_chars as nat, act as nat) =~= all);
        }
        let w = utf8_len_range(&c, cs, act);
        bs = bs + w as usize;
        cs = act;
    }
    assert(split_from(c@, max_chars as nat, cs as nat) == Seq::<(Seq<char>, nat)>::empty());
    assert(done =~= all);
    let r = with_fresh_ids(chunks);
    assert forall|i: int| 0 <= i < r@.len() implies chunk_is(#[trigger] r@[i], doc_id@, all[i], first + i) by {
        assert(same_but_id(r@[i], chunks@[i]));
    }
    r
}

/// The chunks `v` under fresh identifiers, no two alike.
fn with_fresh_ids(v: Vec<Chunk>) -> (r: Vec<Chunk>)
    ensures
        r@.len() == v@.len(),
        forall|i: int| 0 <= i < r@.len() ==> same_but_id(#[trigger] r@[i], v@[i]),
        chunk_ids_fresh(r@),
{
    let ids = fresh_ids(v.len());
    let ghost iv = ids@.map_values(|s: String| s@);
    let mut r: Vec<Chunk> = Vec::new();
    let mut i: usize = 0;
    while i < v.len()
        invariant
            i <= v@.len(),
            ids@.len() == v@.len(),
            iv == ids@.map_values(|s: String| s@),
            fresh_uuids(iv),
            r@.len() == i,
            forall|k: int| 0 <= k < i ==> same_but_id(#[trigger] r@[k], v@[k]),
            forall|k: int| 0 <= k < i ==> (#[trigger] r@[k]).id@ == iv[k],
        decreases v@.len() - i,
    {
        let c = &v[i];
        r.push(
            Chunk {
                id: ids[i].clone(),
                document_id: c.document_id.clone(),
                content: c.content.clone(),
                byte_offset: c.byte_offset,
                chunk_index: c.chunk_index,
                token_count: c.token_count,
            },
        );
        i = i + 1;
    }
    assert(chunk_ids(r@) =~= iv);
    r
}

/// Splits documents into chunks by paragraph boundaries.
pub struct ParagraphChunker {
    max_chars: usize,
    overlap_chars: usize,
}

impl ParagraphChunker {
    /// The budget of a chunk, in bytes.
    pub closed spec fn budget(&self) -> nat {
        self.max_chars as nat
    }

    /// The overlap carried into the next chunk, in characters.
    pub closed spec fn overlap(&self) -> nat {
        self.overlap_chars as nat
    }

    /// A chunker for chunks of about `max_tokens` tokens overlapping by about
    /// `overlap_tokens` tokens, counting four characters to a token.
    pub fn new(max_tokens: usize, overlap_tokens: usize) -> (c: Self)
        requires
            max_tokens * 4 <= usize::MAX,
            overlap_tokens * 4 <= usize::MAX,
        ensures
            c.budget() == max_tokens * 4,
            c.overlap() == overlap_tokens * 4,
    {
        // Rough approximation: 1 token is about 4 chars for English text
        Self { max_chars: max_tokens * 4, overlap_chars: overlap_tokens * 4 }
    }
}

/// Chunks from the first `k` merged pieces are a prefix of all of them.
proof fn lemma_final_upto_len(t: Seq<char>, ms: Seq<(Seq<char>, nat)>, max: nat, k: nat, n: nat)
    requires
        k <= n,
    ensures
        final_upto(t, ms, max, k).len() <= final_upto(t, ms, max, n).len(),
    decreases n,
{
    if k < n {
        lemma_final_upto_len(t, ms, max, k, (n - 1) as nat);
    }
}

impl Chunker for ParagraphChunker {
    open spec fn can_chunk(&self, document: &Document) -> bool {
        chunkable(document.content@, self.budget(), self.overlap())
    }

    fn chunk(&self, document: &Document) -> (r: Result<Vec<Chunk>, CortexError>)
        ensures
            r matches Ok(v) && chunks_of(*document, self.budget(), self.overlap(), v@),
    {
        let t = to_chars(document.content.as_str());
        let ghost max = self.max_chars as nat;
        let ghost ov = self.overlap_chars as nat;
        let (a, b) = trim_range(&t, 0, t.len());
        assert(t@.subrange(0, t@.len() as int) =~= t@);
        if a == b {
            return Ok(Vec::new());
        }
        let (ps, spans) = split_paragraphs(&t);
        let merged = merge_paragraphs(&t, &ps, spans, self.max_chars, self.overlap_chars);
        let ghost ms = merged_pieces(t@, max, ov);
        let mut out: Vec<Chunk> = Vec::new();
        let mut idx: u32 = 0;
        let mut k: usize = 0;
        while k < merged.len()
            invariant
                pieces_of(merged@) == ms,
                ms == merged_pieces(t@, max, ov),
                t@ == document.content@,
                max == self.max_chars,
                ov == self.overlap_chars,
                chunkable(t@, max, ov),
                trim(t@).len() > 0,
                k <= merged@.len(),
                forall|i: int| 0 <= i < merged@.len() ==> (#[trigger] merged@[i]).1 <= t@.len(),
                out@.len() == final_upto(t@, ms, max, k as nat).len(),
                forall|i: int|
                    0 <= i < out@.len() ==> chunk_is(
                        #[trigger] out@[i],
                        document.id@,
                        final_upto(t@, ms, max, k as nat)[i],
                        i,
                    ),
                idx == out@.len(),
            decreases merged@.len() - k,
        {
            let m = &merged[k];
            assert(ms[k as int] == (m.0@, m.1 as nat));
            assert(ms.len() == merged@.len());
            let blen = utf8_len_range(&m.0, 0, m.0.len());
            assert(m.0@.subrange(0, m.0@.len() as int) =~= m.0@);
            proof {
                lemma_final_upto_len(t@, ms, max, (k + 1) as nat, ms.len());
            }
            let ghost before = final_upto(t@, ms, max, k as nat);
            assert(final_upto(t@, ms, max, (k + 1) as nat) == before + expand_piece(t@, max, ms[k as int]));
            if blen > 2 * (self.max_chars as u128) {
                let s = string_from_chars(&m.0);
                let mut sub = split_large_text(document.id.as_str(), s.as_str(), self.max_chars, &mut idx);
                let ghost old_out = out@;
                out.append(&mut sub);
                assert forall|i: int| 0 <= i < out@.len() implies chunk_is(
                    #[trigger] out@[i],
                    document.id@,
                    final_upto(t@, ms, max, (k + 1) as nat)[i],
                    i,
                ) by {
                    if i < old_out.len() {
                        assert(out@[i] == old_out[i]);
                    } else {
                        assert(final_upto(t@, ms, max, (k + 1) as nat)[i] == split_pieces(m.0@, max)[i - old_out.len()]);
                    }
                }
            } else {
                let s = string_from_chars(&m.0);
                proof {
                    lemma_utf8_len_subrange(t@, 0, m.1 as int);
                    assert(t@.subrange(0, m.1 as int) =~= t@.take(m.1 as int));
                }
                let off = utf8_len_range(&t, 0, m.1) as usize;
                let ch = make_chunk(document.id.as_str(), s.as_str(), off, idx);
                let ghost old_out = out@;
                out.push(ch);
                idx = idx + 1;
                assert forall|i: int| 0 <= i < out@.len() implies chunk_is(
                    #[trigger] out@[i],
                    document.id@,
                    final_upto(t@, ms, max, (k + 1) as nat)[i],
                    i,
                ) by {
                    if i < old_out.len() {
                        assert(out@[i] == old_out[i]);
                    }
                }
            }
            k = k + 1;
        }
        let r = with_fresh_ids(out);
        assert forall|i: int| 0 <= i < r@.len() implies chunk_is(
            #[trigger] r@[i],
            document.id@,
            chunk_pieces(document.content@, self.budget(), self.overlap())[i],
            i,
        ) by {
            assert(same_but_id(r@[i], out@[i]));
        }
        Ok(r)
    }
}

/// Chunking a document twice gives the same chunks but for their fresh
/// identifiers: same number, and the same document, text, offset, index and
/// token count at every position.
pub proof fn lemma_chunking_deterministic(doc: Document, max: nat, ov: nat, v1: Seq<Chunk>, v2: Seq<Chunk>)
    requires
        chunks_of(doc, max, ov, v1),
        chunks_of(doc, max, ov, v2),
    ensures
        v1.len() == v2.len(),
        forall|i: int|
            0 <= i < v1.len() ==> {
                &&& (#[trigger] v1[i]).document_id@ == v2[i].document_id@
                &&& v1[i].content@ == v2[i].content@
                &&& v1[i].byte_offset == v2[i].byte_offset
                &&& v1[i].chunk_index == v2[i].chunk_index
                &&& v1[i].token_count == v2[i].token_count
            },
{
    assert forall|i: int| 0 <= i < v1.len() implies {
        &&& (#[trigger] v1[i]).document_id@ == v2[i].document_id@
        &&& v1[i].content@ == v2[i].content@
        &&& v1[i].byte_offset == v2[i].byte_offset
        &&& v1[i].chunk_index == v2[i].chunk_index
        &&& v1[i].token_count == v2[i].token_count
    } by {
        assert(chunk_is(v1[i], doc.id@, chunk_pieces(doc.content@, max, ov)[i], i));
        assert(chunk_is(v2[i], doc.id@, chunk_pieces(doc.content@, max, ov)[i], i));
    }
}

} // verus!
