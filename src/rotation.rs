use vstd::prelude::*;
use crate::index::ImageIndex;
use crate::selection::{matches_any, FolderSelection};

verus! {

/// Seconds the scheduler waits between two wallpaper changes.
pub const INTERVAL_SECS: u64 = 10;

/// What the scheduler asks its driver to do next.
pub enum TickAction {
    /// Report whether this sampled path still exists on disk.
    Check(String),
    /// No known path lies under the selection: wait briefly, then filter again.
    Backoff,
    /// Set this path as the wallpaper, then sleep for the interval.
    Apply(String),
    /// The sampled path was stale and has been evicted: filter again.
    Retry,
}

/// Filtering and sampling: locks are held by the caller, selection first.
/// Asks to check one candidate under the selection, or to back off when
/// there is none.
pub fn begin_tick(index: &ImageIndex, sel: &FolderSelection) -> (r: TickAction)
    ensures
        r is Backoff <==> forall|i: int|
            0 <= i < index@.len() ==> !matches_any(#[trigger] index@[i], sel@),
        r is Backoff || r is Check,
        r is Check ==> index@.contains(r->Check_0@) && matches_any(r->Check_0@, sel@),
{
    match index.sample_matching(sel) {
        Some(p) => TickAction::Check(p),
        None => TickAction::Backoff,
    }
}

/// Validation: a candidate that exists is applied and the index kept as it
/// is; a missing one is evicted and the tick starts over.
pub fn settle_candidate(index: &mut ImageIndex, candidate: String, exists: bool) -> (r:
    TickAction)
    requires
        old(index).wf(),
    ensures
        final(index).wf(),
        exists ==> r == TickAction::Apply(candidate) && final(index)@ == old(index)@,
        !exists ==> r is Retry && !final(index)@.contains(candidate@),
        !exists ==> forall|q: Seq<char>|
            q != candidate@ ==> (final(index)@.contains(q) <==> old(index)@.contains(q)),
        !exists ==> final(index)@.len() == if old(index)@.contains(candidate@) {
            old(index)@.len() - 1
        } else {
            old(index)@.len() as int
        },
{
    if exists {
        TickAction::Apply(candidate)
    } else {
        index.remove(candidate.as_str());
        TickAction::Retry
    }
}

} // verus!
