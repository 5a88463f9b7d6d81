//! What the folder watcher does with each file-system event.

use vstd::prelude::*;

verus! {

/// The kind of a file-system event, as the watcher reports it.
pub enum ChangeKind {
    Any,
    Access,
    Create,
    Modify,
    Remove,
    Other,
}

/// Whether an event changes files: a creation, a modification or a removal.
pub fn is_file_change(kind: &ChangeKind) -> (r: bool)
    ensures
        r == (kind is Create || kind is Modify || kind is Remove),
{
    match kind {
        ChangeKind::Create | ChangeKind::Modify | ChangeKind::Remove => true,
        _ => false,
    }
}

/// What to do on an event of the watcher.
pub enum WatchStep {
    /// Report the change and index the folder again.
    Reindex,
    /// Nothing changed that matters.
    Ignore,
    /// Report the watcher's error.
    ReportError,
}

/// The step for an event: `None` stands for an error of the watcher.
pub fn watch_step(event: Option<ChangeKind>) -> (r: WatchStep)
    ensures
        match event {
            None => r is ReportError,
            Some(k) => if k is Create || k is Modify || k is Remove {
                r is Reindex
            } else {
                r is Ignore
            },
        },
{
    match event {
        None => WatchStep::ReportError,
        Some(k) => if is_file_change(&k) {
            WatchStep::Reindex
        } else {
            WatchStep::Ignore
        },
    }
}

} // verus!
