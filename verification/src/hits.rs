//! Assembling search hits: which stored chunks answer which ranked results.
//!
//! A hit is located by three positions: that of the ranked result, that of
//! the document in the store's listing, and that of the chunk among the
//! document's chunks.

use vstd::prelude::*;

use crate::config::strings_view;
use crate::text::str_eq;

verus! {

broadcast use vstd::string::group_string_axioms;

/// The chunk ids of each listed document, as sequences of characters.
pub open spec fn id_lists(v: Seq<Vec<String>>) -> Seq<Seq<Seq<char>>> {
    v.map_values(|l: Vec<String>| strings_view(l@))
}

/// The locations, in order, of the chunks among `chunks` (those of document
/// `d`) whose id is `id`, as hits of result `r`.
pub open spec fn chunk_matches(id: Seq<char>, r: int, d: int, chunks: Seq<Seq<char>>) -> Seq<
    (int, int, int),
>
    decreases chunks.len(),
{
    if chunks.len() == 0 {
        Seq::empty()
    } else {
        chunk_matches(id, r, d, chunks.drop_last()) + if chunks.last() == id {
            seq![(r, d, chunks.len() - 1)]
        } else {
            Seq::empty()
        }
    }
}

/// The locations of the chunks with id `id` over all documents `docs`, in
/// listing order, as hits of result `r`.
pub open spec fn doc_matches(id: Seq<char>, r: int, docs: Seq<Seq<Seq<char>>>) -> Seq<
    (int, int, int),
>
    decreases docs.len(),
{
    if docs.len() == 0 {
        Seq::empty()
    } else {
        doc_matches(id, r, docs.drop_last()) + chunk_matches(id, r, docs.len() - 1, docs.last())
    }
}

/// The hits of the ranked results `ids`, in ranking order, those of a result
/// with `keep` false left out.
pub open spec fn search_hits(ids: Seq<Seq<char>>, keep: Seq<bool>, docs: Seq<Seq<Seq<char>>>) -> Seq<
    (int, int, int),
>
    decreases ids.len(),
{
    if ids.len() == 0 {
        Seq::empty()
    } else {
        search_hits(ids.drop_last(), keep, docs) + if keep[ids.len() - 1] {
            doc_matches(ids.last(), ids.len() - 1, docs)
        } else {
            Seq::empty()
        }
    }
}

/// The hits as integers.
pub open spec fn hits_view(v: Seq<(usize, usize, usize)>) -> Seq<(int, int, int)> {
    v.map_values(|t: (usize, usize, usize)| (t.0 as int, t.1 as int, t.2 as int))
}

/// Matches ranked results against stored chunks: for each result kept (in
/// ranking order), each chunk whose id is the result's, document by document
/// in listing order and chunk by chunk. Each hit is given as (result,
/// document, chunk) positions.
pub fn match_hits(ids: &Vec<String>, keep: &Vec<bool>, docs: &Vec<Vec<String>>) -> (r: Vec<
    (usize, usize, usize),
>)
    requires
        keep@.len() == ids@.len(),
    ensures
        hits_view(r@) == search_hits(strings_view(ids@), keep@, id_lists(docs@)),
{
    let ghost iv = strings_view(ids@);
    let ghost dv = id_lists(docs@);
    let mut out: Vec<(usize, usize, usize)> = Vec::new();
    let mut i: usize = 0;
    while i < ids.len()
        invariant
            i <= ids@.len() == keep@.len(),
            iv == strings_view(ids@),
            dv == id_lists(docs@),
            hits_view(out@) == search_hits(iv.take(i as int), keep@, dv),
        decreases ids@.len() - i,
    {
        let ghost base = hits_view(out@);
        assert(iv.take(i + 1).drop_last() =~= iv.take(i as int));
        if keep[i] {
            let id = ids[i].as_str();
            let mut d: usize = 0;
            while d < docs.len()
                invariant
                    i < ids@.len(),
                    d <= docs@.len(),
                    id@ == iv[i as int],
                    dv == id_lists(docs@),
                    hits_view(out@) == base + doc_matches(iv[i as int], i as int, dv.take(d as int)),
                decreases docs@.len() - d,
            {
                let ghost mid = hits_view(out@);
                let chunks = &docs[d];
                let ghost cv = strings_view(chunks@);
                assert(dv[d as int] == cv);
                assert(dv.take(d + 1).drop_last() =~= dv.take(d as int));
                let mut c: usize = 0;
                while c < chunks.len()
                    invariant
                        c <= chunks@.len(),
                        cv == strings_view(chunks@),
                        id@ == iv[i as int],
                        hits_view(out@) == mid + chunk_matches(
                            iv[i as int],
                            i as int,
                            d as int,
                            cv.take(c as int),
                        ),
                    decreases chunks@.len() - c,
                {
                    let ghost before = hits_view(out@);
                    assert(cv.take(c + 1).drop_last() =~= cv.take(c as int));
                    if str_eq(chunks[c].as_str(), id) {
                        out.push((i, d, c));
                        assert(hits_view(out@) =~= before + seq![(i as int, d as int, c as int)]);
                    } else {
                        assert(hits_view(out@) =~= before + Seq::<(int, int, int)>::empty());
                    }
                    c = c + 1;
                }
                assert(cv.take(c as int) =~= cv);
                d = d + 1;
            }
            assert(dv.take(d as int) =~= dv);
        } else {
            assert(hits_view(out@) =~= base + Seq::<(int, int, int)>::empty());
        }
        i = i + 1;
    }
    assert(iv.take(i as int) =~= iv);
    out
}

/// A hit `t` of result id `id` at position `r` names a chunk of `docs` whose
/// id is `id`.
pub open spec fn names_chunk(t: (int, int, int), id: Seq<char>, r: int, docs: Seq<Seq<Seq<char>>>) -> bool {
    &&& t.0 == r
    &&& 0 <= t.1 < docs.len()
    &&& 0 <= t.2 < docs[t.1].len()
    &&& docs[t.1][t.2] == id
}

proof fn lemma_chunk_matches_sound(id: Seq<char>, r: int, d: int, chunks: Seq<Seq<char>>, docs: Seq<Seq<Seq<char>>>)
    requires
        0 <= d < docs.len(),
        chunks.len() <= docs[d].len(),
        forall|c: int| 0 <= c < chunks.len() ==> chunks[c] == docs[d][c],
    ensures
        forall|k: int| 0 <= k < chunk_matches(id, r, d, chunks).len() ==> names_chunk(
            #[trigger] chunk_matches(id, r, d, chunks)[k], id, r, docs),
    decreases chunks.len(),
{
    if chunks.len() > 0 {
        lemma_chunk_matches_sound(id, r, d, chunks.drop_last(), docs);
        let a = chunk_matches(id, r, d, chunks.drop_last());
        let b = if chunks.last() == id {
            seq![(r, d, chunks.len() - 1)]
        } else {
            Seq::empty()
        };
        assert forall|k: int| 0 <= k < (a + b).len() implies names_chunk(#[trigger] (a + b)[k], id, r, docs) by {
            if k < a.len() {
                assert((a + b)[k] == a[k]);
            } else {
                assert((a + b)[k] == b[k - a.len()]);
            }
        }
    }
}

proof fn lemma_doc_matches_sound(id: Seq<char>, r: int, docs: Seq<Seq<Seq<char>>>, n: int)
    requires
        0 <= n <= docs.len(),
    ensures
        forall|k: int| 0 <= k < doc_matches(id, r, docs.take(n)).len() ==> names_chunk(
            #[trigger] doc_matches(id, r, docs.take(n))[k], id, r, docs),
    decreases n,
{
    if n > 0 {
        let t = docs.take(n);
        assert(t.drop_last() =~= docs.take(n - 1));
        lemma_doc_matches_sound(id, r, docs, n - 1);
        lemma_chunk_matches_sound(id, r, n - 1, t.last(), docs);
        let a = doc_matches(id, r, docs.take(n - 1));
        let b = chunk_matches(id, r, n - 1, t.last());
        assert forall|k: int| 0 <= k < (a + b).len() implies names_chunk(#[trigger] (a + b)[k], id, r, docs) by {
            if k < a.len() {
                assert((a + b)[k] == a[k]);
            } else {
                assert((a + b)[k] == b[k - a.len()]);
            }
        }
    }
}

proof fn lemma_hits_sound_upto(ids: Seq<Seq<char>>, keep: Seq<bool>, docs: Seq<Seq<Seq<char>>>)
    requires
        keep.len() >= ids.len(),
    ensures
        forall|k: int|
            0 <= k < search_hits(ids, keep, docs).len() ==> {
                let t = #[trigger] search_hits(ids, keep, docs)[k];
                &&& 0 <= t.0 < ids.len()
                &&& keep[t.0]
                &&& names_chunk(t, ids[t.0], t.0, docs)
            },
    decreases ids.len(),
{
    if ids.len() > 0 {
        let last = ids.len() - 1;
        lemma_hits_sound_upto(ids.drop_last(), keep, docs);
        let a = search_hits(ids.drop_last(), keep, docs);
        let b = if keep[last] {
            doc_matches(ids.last(), last, docs)
        } else {
            Seq::empty()
        };
        if keep[last] {
            lemma_doc_matches_sound(ids.last(), last, docs, docs.len() as int);
            assert(docs.take(docs.len() as int) =~= docs);
        }
        assert forall|k: int| 0 <= k < (a + b).len() implies {
            let t = #[trigger] (a + b)[k];
            &&& 0 <= t.0 < ids.len()
            &&& keep[t.0]
            &&& names_chunk(t, ids[t.0], t.0, docs)
        } by {
            if k < a.len() {
                assert((a + b)[k] == a[k]);
                let t = a[k];
                assert(ids.drop_last()[t.0] == ids[t.0]);
            } else {
                assert((a + b)[k] == b[k - a.len()]);
            }
        }
    }
}

/// Every hit names a result that was kept and a stored chunk that carries
/// that result's id.
pub proof fn lemma_hits_sound(ids: Seq<Seq<char>>, keep: Seq<bool>, docs: Seq<Seq<Seq<char>>>)
    requires
        keep.len() == ids.len(),
    ensures
        forall|k: int|
            0 <= k < search_hits(ids, keep, docs).len() ==> {
                let t = #[trigger] search_hits(ids, keep, docs)[k];
                &&& 0 <= t.0 < ids.len()
                &&& keep[t.0]
                &&& names_chunk(t, ids[t.0], t.0, docs)
            },
{
    lemma_hits_sound_upto(ids, keep, docs);
}

} // verus!
