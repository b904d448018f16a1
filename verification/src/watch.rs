//! Which file-system changes become document events, and what the initial
//! scan does with each directory entry.

use vstd::prelude::*;

use crate::document::{DocumentEvent, DocumentEventView};
use crate::paths::{allowed_extension, has_allowed_extension, ignored, should_ignore};

verus! {

/// The kind of a file-system notification.
#[derive(Debug, Clone, Copy, PartialEq, Eq)]
pub enum WatchKind {
    Create,
    Modify,
    Remove,
    /// Any other notification (access, metadata, ...).
    Other,
}

/// The event a notification of `kind` about `path` becomes, if any: none for
/// ignored paths, for paths without an indexed extension, and for other kinds.
pub open spec fn watch_event_of(
    kind: WatchKind,
    path: Seq<char>,
    extensions: Seq<String>,
    ignore_patterns: Seq<String>,
) -> Option<DocumentEventView> {
    if ignored(path, ignore_patterns) || !allowed_extension(path, extensions) {
        None
    } else {
        match kind {
            WatchKind::Create => Some(DocumentEventView::Created(path)),
            WatchKind::Modify => Some(DocumentEventView::Modified(path)),
            WatchKind::Remove => Some(DocumentEventView::Deleted(path)),
            WatchKind::Other => None,
        }
    }
}

/// The filters come before the kind: a notification of any kind about an
/// ignored path, or a path without an indexed extension, gives no event;
/// otherwise a creation, change or removal gives the event of that kind
/// about the same path, and any other notification gives none.
pub proof fn lemma_watch_filters(
    kind: WatchKind,
    path: Seq<char>,
    extensions: Seq<String>,
    ignore_patterns: Seq<String>,
)
    ensures
        ignored(path, ignore_patterns) || !allowed_extension(path, extensions) ==> watch_event_of(
            kind,
            path,
            extensions,
            ignore_patterns,
        ) is None,
        !ignored(path, ignore_patterns) && allowed_extension(path, extensions) ==> watch_event_of(
            kind,
            path,
            extensions,
            ignore_patterns,
        ) == match kind {
            WatchKind::Create => Some(DocumentEventView::Created(path)),
            WatchKind::Modify => Some(DocumentEventView::Modified(path)),
            WatchKind::Remove => Some(DocumentEventView::Deleted(path)),
            WatchKind::Other => None::<DocumentEventView>,
        },
{
}

/// The initial scan skips ignored entries whatever they are, descends into
/// the other directories, and announces the other files exactly when their
/// extension is indexed.
pub proof fn lemma_scan_filters(
    path: Seq<char>,
    is_dir: bool,
    extensions: Seq<String>,
    ignore_patterns: Seq<String>,
)
    ensures
        ignored(path, ignore_patterns) ==> scan_step_of(path, is_dir, extensions, ignore_patterns)
            == ScanStep::Skip,
        !ignored(path, ignore_patterns) && is_dir ==> scan_step_of(path, is_dir, extensions, ignore_patterns)
            == ScanStep::Descend,
        !ignored(path, ignore_patterns) && !is_dir ==> (scan_step_of(path, is_dir, extensions, ignore_patterns)
            == ScanStep::Emit <==> allowed_extension(path, extensions)),
{
}

/// The document event for a notification of `kind` about `path`, if any.
pub fn watch_event(
    kind: WatchKind,
    path: &str,
    extensions: &[String],
    ignore_patterns: &[String],
) -> (r: Option<DocumentEvent>)
    ensures
        match r {
            Some(e) => watch_event_of(kind, path@, extensions@, ignore_patterns@) == Some(e@),
            None => watch_event_of(kind, path@, extensions@, ignore_patterns@) is None,
        },
{
    if should_ignore(path, ignore_patterns) {
        return None;
    }
    if !has_allowed_extension(path, extensions) {
        return None;
    }
    match kind {
        WatchKind::Create => Some(DocumentEvent::Created(path.to_string())),
        WatchKind::Modify => Some(DocumentEvent::Modified(path.to_string())),
        WatchKind::Remove => Some(DocumentEvent::Deleted(path.to_string())),
        WatchKind::Other => None,
    }
}

/// What the initial scan does with a directory entry.
#[derive(Debug, Clone, Copy, PartialEq, Eq)]
pub enum ScanStep {
    /// Ignored, or a file without an indexed extension.
    Skip,
    /// A directory to scan.
    Descend,
    /// A file to announce as created.
    Emit,
}

/// The scan step for an entry at `path`, a directory or not.
pub open spec fn scan_step_of(
    path: Seq<char>,
    is_dir: bool,
    extensions: Seq<String>,
    ignore_patterns: Seq<String>,
) -> ScanStep {
    if ignored(path, ignore_patterns) {
        ScanStep::Skip
    } else if is_dir {
        ScanStep::Descend
    } else if allowed_extension(path, extensions) {
        ScanStep::Emit
    } else {
        ScanStep::Skip
    }
}

/// Decides what the initial scan does with the entry at `path`.
pub fn scan_step(path: &str, is_dir: bool, extensions: &[String], ignore_patterns: &[String]) -> (r:
    ScanStep)
    ensures
        r == scan_step_of(path@, is_dir, extensions@, ignore_patterns@),
{
    if should_ignore(path, ignore_patterns) {
        ScanStep::Skip
    } else if is_dir {
        ScanStep::Descend
    } else if has_allowed_extension(path, extensions) {
        ScanStep::Emit
    } else {
        ScanStep::Skip
    }
}

} // verus!
