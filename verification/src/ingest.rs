//! Decisions of the ingestion pipeline: which events to process after a
//! debounce window, what to do with a changed file, how chunks are batched.

use vstd::prelude::*;

use crate::document::{event_path, path_of, DocumentEvent, DocumentEventView};
use crate::paths::{path_components, path_key, same_components, PathKey};
use crate::text::str_eq;

verus! {

broadcast use vstd::string::group_string_axioms;

/// The models of a sequence of events.
pub open spec fn events_view(v: Seq<DocumentEvent>) -> Seq<DocumentEventView> {
    v.map_values(|e: DocumentEvent| e@)
}

/// The components of the path an event is about: two events are about the
/// same path when these are equal.
pub open spec fn key_of(e: DocumentEventView) -> (bool, bool, Seq<Seq<char>>) {
    path_key(path_of(e))
}

/// The last event in `evs` about the path with components `k`.
pub open spec fn latest_for(evs: Seq<DocumentEventView>, k: (bool, bool, Seq<Seq<char>>)) -> Option<
    DocumentEventView,
>
    decreases evs.len(),
{
    if evs.len() == 0 {
        None
    } else if key_of(evs.last()) == k {
        Some(evs.last())
    } else {
        latest_for(evs.drop_last(), k)
    }
}

/// The first event in `evs` about the path with components `k`.
pub open spec fn first_for(evs: Seq<DocumentEventView>, k: (bool, bool, Seq<Seq<char>>)) -> Option<
    DocumentEventView,
>
    decreases evs.len(),
{
    if evs.len() == 0 {
        None
    } else {
        match first_for(evs.drop_last(), k) {
            Some(f) => Some(f),
            None => if key_of(evs.last()) == k {
                Some(evs.last())
            } else {
                None
            },
        }
    }
}

/// Event `e` of the same kind, about path text `p`.
pub open spec fn with_path(e: DocumentEventView, p: Seq<char>) -> DocumentEventView {
    match e {
        DocumentEventView::Created(_) => DocumentEventView::Created(p),
        DocumentEventView::Modified(_) => DocumentEventView::Modified(p),
        DocumentEventView::Deleted(_) => DocumentEventView::Deleted(p),
    }
}

/// What the window `evs` keeps for the path with components `k`: the kind of
/// the latest event about it, under the path text of the first one (a map
/// keyed by path keeps the first key and the latest value).
pub open spec fn merged_for(evs: Seq<DocumentEventView>, k: (bool, bool, Seq<Seq<char>>)) -> Option<
    DocumentEventView,
> {
    match (latest_for(evs, k), first_for(evs, k)) {
        (Some(l), Some(f)) => Some(with_path(l, path_of(f))),
        _ => None,
    }
}

/// The position of the first event in `evs` about the path with components
/// `k`, or `evs.len()` when there is none.
pub open spec fn first_pos(evs: Seq<DocumentEventView>, k: (bool, bool, Seq<Seq<char>>)) -> nat
    decreases evs.len(),
{
    if evs.len() == 0 {
        0
    } else {
        let p = first_pos(evs.drop_last(), k);
        if p < evs.len() - 1 {
            p
        } else if key_of(evs.last()) == k {
            (evs.len() - 1) as nat
        } else {
            evs.len()
        }
    }
}

/// `out` holds exactly one event per path of `evs` (paths compared by their
/// components), the one `merged_for` gives, in the order in which the paths
/// first came.
pub open spec fn deduplicated(evs: Seq<DocumentEventView>, out: Seq<DocumentEventView>) -> bool {
    &&& forall|i: int| 0 <= i < out.len() ==> first_pos(evs, key_of(#[trigger] out[i])) < evs.len()
    &&& forall|i: int, j: int|
        0 <= i < j < out.len() ==> first_pos(evs, key_of(#[trigger] out[i])) < first_pos(
            evs,
            key_of(#[trigger] out[j]),
        )
    &&& forall|i: int, j: int|
        0 <= i < j < out.len() ==> key_of(#[trigger] out[i]) != key_of(#[trigger] out[j])
    &&& forall|i: int| 0 <= i < out.len() ==> merged_for(evs, key_of(#[trigger] out[i])) == Some(out[i])
    &&& forall|k: int|
        0 <= k < evs.len() ==> exists|i: int|
            0 <= i < out.len() && key_of(#[trigger] out[i]) == key_of(#[trigger] evs[k])
}

/// No event comes first about a path no event is about.
proof fn lemma_first_pos_none(evs: Seq<DocumentEventView>, k: (bool, bool, Seq<Seq<char>>))
    requires
        forall|i: int| 0 <= i < evs.len() ==> key_of(#[trigger] evs[i]) != k,
    ensures
        first_pos(evs, k) == evs.len(),
    decreases evs.len(),
{
    if evs.len() > 0 {
        lemma_first_pos_none(evs.drop_last(), k);
    }
}

/// Nothing is first about a path no event is about.
proof fn lemma_first_for_none(evs: Seq<DocumentEventView>, k: (bool, bool, Seq<Seq<char>>))
    requires
        forall|i: int| 0 <= i < evs.len() ==> key_of(#[trigger] evs[i]) != k,
    ensures
        first_for(evs, k) is None,
    decreases evs.len(),
{
    if evs.len() > 0 {
        lemma_first_for_none(evs.drop_last(), k);
    }
}

/// The event `e` as the event kept under path text `p`.
fn event_with_path(e: &DocumentEvent, p: &str) -> (r: DocumentEvent)
    ensures
        r@ == with_path(e@, p@),
{
    match e {
        DocumentEvent::Created(_) => DocumentEvent::Created(p.to_string()),
        DocumentEvent::Modified(_) => DocumentEvent::Modified(p.to_string()),
        DocumentEvent::Deleted(_) => DocumentEvent::Deleted(p.to_string()),
    }
}

/// The events of one debounce window, one per path (paths compared by their
/// components): for each path the kind of its latest event, under the path
/// text it first came with, in the order the paths first came.
pub fn dedup_events(events: &[DocumentEvent]) -> (r: Vec<DocumentEvent>)
    ensures
        deduplicated(events_view(events@), events_view(r@)),
{
    let ghost ev = events_view(events@);
    let mut out: Vec<DocumentEvent> = Vec::new();
    let mut keys: Vec<PathKey> = Vec::new();
    let mut n: usize = 0;
    while n < events.len()
        invariant
            n <= events@.len(),
            ev == events_view(events@),
            keys@.len() == out@.len(),
            forall|i: int| 0 <= i < keys@.len() ==> (#[trigger] keys@[i]).key() == key_of(out@[i]@),
            deduplicated(ev.take(n as int), events_view(out@)),
        decreases events@.len() - n,
    {
        let e = &events[n];
        let ke = path_components(event_path(e));
        let ghost before = events_view(out@);
        let ghost pre = ev.take(n as int);
        let ghost post = ev.take(n + 1);
        let ghost kv = ke.key();
        assert(post.drop_last() =~= pre);
        assert(post.last() == e@);
        assert(kv == key_of(e@));
        let mut j: usize = 0;
        let mut found = false;
        while j < out.len()
            invariant_except_break
                !found,
            invariant
                j <= out@.len(),
                keys@.len() == out@.len(),
                before == events_view(out@),
                kv == ke.key(),
                forall|i: int| 0 <= i < keys@.len() ==> (#[trigger] keys@[i]).key() == key_of(out@[i]@),
                forall|m: int| 0 <= m < j ==> key_of(before[m]) != kv,
            ensures
                found ==> j < out@.len() && key_of(before[j as int]) == kv,
                !found ==> j == out@.len(),
            decreases out@.len() - j,
        {
            assert(keys@[j as int].key() == key_of(out@[j as int]@));
            assert(before[j as int] == out@[j as int]@);
            if same_components(&keys[j], &ke) {
                found = true;
                break;
            }
            j = j + 1;
        }
        if found {
            let kept = event_with_path(e, event_path(&out[j]));
            out.set(j, kept);
            let ghost after = events_view(out@);
            let ghost old_j = before[j as int];
            assert(after =~= before.update(j as int, with_path(e@, path_of(old_j))));
            assert(key_of(after[j as int]) == kv) by {
                assert(path_of(after[j as int]) == path_of(old_j));
            }
            assert forall|i: int| 0 <= i < after.len() implies merged_for(post, key_of(#[trigger] after[i]))
                == Some(after[i]) by {
                if i != j {
                    assert(after[i] == before[i]);
                    assert(key_of(before[i]) != key_of(before[j as int]));
                    assert(latest_for(post, key_of(before[i])) == latest_for(pre, key_of(before[i])));
                    assert(first_for(post, key_of(before[i])) == first_for(pre, key_of(before[i])));
                } else {
                    assert(merged_for(pre, kv) == Some(old_j));
                    let f = first_for(pre, kv)->0;
                    assert(first_for(post, kv) == Some(f));
                    assert(latest_for(post, kv) == Some(e@));
                    assert(path_of(old_j) == path_of(f)) by {
                        let l = latest_for(pre, kv)->0;
                        assert(old_j == with_path(l, path_of(f)));
                    }
                }
            }
            assert forall|m: int| 0 <= m < post.len() implies exists|i: int|
                0 <= i < after.len() && key_of(#[trigger] after[i]) == key_of(#[trigger] post[m]) by {
                if m < pre.len() {
                    assert(post[m] == pre[m]);
                    let i = choose|i: int| 0 <= i < before.len() && key_of(before[i]) == key_of(pre[m]);
                    if i == j {
                        assert(key_of(after[j as int]) == key_of(post[m]));
                    } else {
                        assert(after[i] == before[i]);
                        assert(key_of(after[i]) == key_of(post[m]));
                    }
                } else {
                    assert(key_of(after[j as int]) == key_of(post[m]));
                }
            }
            assert forall|i: int, i2: int| 0 <= i < i2 < after.len() implies key_of(#[trigger] after[i])
                != key_of(#[trigger] after[i2]) by {
                if i != j {
                    assert(after[i] == before[i]);
                }
                if i2 != j {
                    assert(after[i2] == before[i2]);
                }
            }
            assert forall|i: int| 0 <= i < after.len() implies first_pos(post, key_of(#[trigger] after[i]))
                == first_pos(pre, key_of(before[i])) && first_pos(pre, key_of(before[i])) < pre.len() by {
                if i != j {
                    assert(after[i] == before[i]);
                }
            }
            assert forall|i: int, i2: int| 0 <= i < i2 < after.len() implies first_pos(
                post,
                key_of(#[trigger] after[i]),
            ) < first_pos(post, key_of(#[trigger] after[i2])) by {
                assert(first_pos(post, key_of(after[i])) == first_pos(pre, key_of(before[i])));
                assert(first_pos(post, key_of(after[i2])) == first_pos(pre, key_of(before[i2])));
            }
        } else {
            let copy = e.duplicate();
            out.push(copy);
            keys.push(ke);
            let ghost after = events_view(out@);
            assert(after =~= before.push(e@));
            proof {
                assert forall|i: int| 0 <= i < pre.len() implies key_of(#[trigger] pre[i]) != kv by {
                    let w = choose|w: int| 0 <= w < before.len() && key_of(before[w]) == key_of(pre[i]);
                }
                lemma_first_for_none(pre, kv);
                lemma_first_pos_none(pre, kv);
            }
            assert(first_pos(post, kv) == pre.len());
            assert forall|i: int| 0 <= i < before.len() implies first_pos(post, key_of(#[trigger] after[i]))
                == first_pos(pre, key_of(before[i])) && first_pos(pre, key_of(before[i])) < pre.len() by {
                assert(after[i] == before[i]);
            }
            assert forall|i: int, i2: int| 0 <= i < i2 < after.len() implies first_pos(
                post,
                key_of(#[trigger] after[i]),
            ) < first_pos(post, key_of(#[trigger] after[i2])) by {
                assert(first_pos(post, key_of(after[i])) == first_pos(pre, key_of(before[i])));
                if i2 < before.len() {
                    assert(first_pos(post, key_of(after[i2])) == first_pos(pre, key_of(before[i2])));
                } else {
                    assert(key_of(after[i2]) == kv);
                }
            }
            assert(first_for(post, kv) == Some(e@));
            assert(latest_for(post, kv) == Some(e@));
            assert(with_path(e@, path_of(e@)) == e@);
            assert forall|i: int| 0 <= i < after.len() implies merged_for(post, key_of(#[trigger] after[i]))
                == Some(after[i]) by {
                if i < before.len() {
                    assert(after[i] == before[i]);
                    assert(key_of(before[i]) != kv);
                    assert(latest_for(post, key_of(before[i])) == latest_for(pre, key_of(before[i])));
                    assert(first_for(post, key_of(before[i])) == first_for(pre, key_of(before[i])));
                }
            }
            assert forall|m: int| 0 <= m < post.len() implies exists|i: int|
                0 <= i < after.len() && key_of(#[trigger] after[i]) == key_of(#[trigger] post[m]) by {
                if m < pre.len() {
                    assert(post[m] == pre[m]);
                    let i = choose|i: int| 0 <= i < before.len() && key_of(before[i]) == key_of(pre[m]);
                    assert(after[i] == before[i]);
                } else {
                    assert(key_of(after[before.len() as int]) == key_of(post[m]));
                }
            }
            assert forall|i: int, i2: int| 0 <= i < i2 < after.len() implies key_of(#[trigger] after[i])
                != key_of(#[trigger] after[i2]) by {
                if i2 < before.len() {
                    assert(after[i] == before[i]);
                    assert(after[i2] == before[i2]);
                } else {
                    assert(after[i] == before[i]);
                    assert(key_of(before[i]) != kv);
                }
            }
        }
        n = n + 1;
    }
    assert(ev.take(events@.len() as int) =~= ev);
    out
}

/// What processing one event comes to, once the stored version of its path
/// (if any) is known and, for a created or modified file, the file was read.
#[derive(Debug, Clone, Copy, PartialEq, Eq)]
pub enum EventPlan {
    /// Nothing to do: a deleted file that was never stored, or a file whose
    /// content is the stored one.
    Skip,
    /// A deleted file: its document, chunks and embeddings are removed.
    Remove,
    /// A changed file: the stored data is removed, then the file is indexed.
    Replace,
    /// A file with nothing stored for it: it is indexed.
    Index,
}

/// The plan for event `e`, whose path has a stored version with content hash
/// `stored` (if any), and whose file, when read, has content hash `now`.
pub open spec fn event_plan_of(e: DocumentEventView, stored: Option<Seq<char>>, now: Seq<char>) -> EventPlan {
    match e {
        DocumentEventView::Deleted(_) => match stored {
            Some(_) => EventPlan::Remove,
            None => EventPlan::Skip,
        },
        _ => match stored {
            Some(h) => if h == now {
                EventPlan::Skip
            } else {
                EventPlan::Replace
            },
            None => EventPlan::Index,
        },
    }
}

/// Created and modified files are handled alike: whatever their kind, a
/// file with a stored version is skipped exactly when its content hash is
/// unchanged and re-indexed otherwise, and a file with no stored version is
/// indexed. A deleted file's stored data is removed, if there is any.
pub proof fn lemma_plan_by_hash(p: Seq<char>, stored: Option<Seq<char>>, now: Seq<char>)
    ensures
        event_plan_of(DocumentEventView::Created(p), stored, now) == event_plan_of(
            DocumentEventView::Modified(p),
            stored,
            now,
        ),
        forall|h: Seq<char>|
            stored == Some(h) ==> event_plan_of(DocumentEventView::Created(p), stored, now) == (if h
                == now {
                EventPlan::Skip
            } else {
                EventPlan::Replace
            }),
        stored is None ==> event_plan_of(DocumentEventView::Created(p), stored, now) == EventPlan::Index,
        event_plan_of(DocumentEventView::Deleted(p), stored, now) == (if stored is Some {
            EventPlan::Remove
        } else {
            EventPlan::Skip
        }),
{
}

/// Decides what to do with an event, from the content hash of the stored
/// version of its path (if any) and the content hash of the file as read now
/// (not looked at for a deleted file).
pub fn plan_event(event: &DocumentEvent, stored_hash: Option<&str>, new_hash: &str) -> (r: EventPlan)
    ensures
        r == event_plan_of(
            event@,
            match stored_hash {
                Some(h) => Some(h@),
                None => None,
            },
            new_hash@,
        ),
{
    match event {
        DocumentEvent::Deleted(_) => match stored_hash {
            Some(_) => EventPlan::Remove,
            None => EventPlan::Skip,
        },
        _ => match stored_hash {
            Some(h) => if str_eq(h, new_hash) {
                EventPlan::Skip
            } else {
                EventPlan::Replace
            },
            None => EventPlan::Index,
        },
    }
}

/// The batches in which `n` chunks are embedded, `size` at a time, as
/// `slice::chunks` cuts them: half-open index ranges that follow each other
/// from 0 to `n`, all of length `size` but possibly the last.
pub fn batch_ranges(n: usize, size: usize) -> (r: Vec<(usize, usize)>)
    requires
        size > 0,
    ensures
        forall|k: int|
            0 <= k < r@.len() ==> (#[trigger] r@[k]).0 == k * size && r@[k].1 == (if (k + 1)
                * size < n {
                (k + 1) * size
            } else {
                n as int
            }),
        r@.len() * size >= n,
        r@.len() == 0 || (r@.len() - 1) * size < n,
        forall|k: int| 0 <= k < r@.len() ==> (#[trigger] r@[k]).0 < r@[k].1 <= r@[k].0 + size,
        forall|k: int| 0 <= k < r@.len() - 1 ==> (#[trigger] r@[k]).1 == r@[k + 1].0,
        r@.len() > 0 ==> r@[0].0 == 0 && r@[r@.len() - 1].1 == n,
{
    let mut r: Vec<(usize, usize)> = Vec::new();
    let mut start: usize = 0;
    while start < n
        invariant
            size > 0,
            start <= n,
            start == (if r@.len() * size < n {
                r@.len() * size
            } else {
                n as int
            }),
            forall|k: int|
                0 <= k < r@.len() ==> (#[trigger] r@[k]).0 == k * size && r@[k].1 == (if (k + 1)
                    * size < n {
                    (k + 1) * size
                } else {
                    n as int
                }),
            r@.len() == 0 || (r@.len() - 1) * size < n,
            forall|k: int| 0 <= k < r@.len() ==> (#[trigger] r@[k]).0 < r@[k].1 <= r@[k].0 + size,
            forall|k: int| 0 <= k < r@.len() - 1 ==> (#[trigger] r@[k]).1 == r@[k + 1].0,
            r@.len() > 0 ==> r@[0].0 == 0 && r@[r@.len() - 1].1 == start,
        decreases n - start,
    {
        let end = if size < n - start {
            start + size
        } else {
            n
        };
        let ghost k = r@.len();
        assert((k + 1) * size == k * size + size) by (nonlinear_arith);
        assert(start == k * size);
        r.push((start, end));
        start = end;
    }
    if r.len() > 0 {
        assert(r@[r@.len() - 1].1 == n);
        assert(r@.len() * size >= n) by (nonlinear_arith)
            requires
                r@.len() > 0,
                r@[r@.len() - 1].1 == n,
                r@[r@.len() - 1].1 <= r@[r@.len() - 1].0 + size,
                r@[r@.len() - 1].0 == (r@.len() - 1) * size,
        ;
    }
    r
}

} // verus!
