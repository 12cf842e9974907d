//! The steps of assembling one chapter, as a machine from the current step
//! and the outcome of its work to the next step. The caller performs each
//! step's work (network, files) and reports whether it succeeded.

use vstd::prelude::*;

verus! {

/// The step a chapter's assembly is at.
#[derive(Clone, Copy, Debug, PartialEq, Eq, Structural)]
pub enum Stage {
    /// Fetch the reader page and read its page list.
    ListPages,
    /// Create the chapter's workspace, reusing one that already exists.
    CreateWorkspace,
    /// Fetch every page into the workspace, concurrently, and wait for all;
    /// a page that fails is only reported.
    FetchPages,
    /// Read the pages back in position order and build the document.
    BuildDocument,
    /// Copy the document out of the workspace.
    CopyDocument,
    /// Remove the workspace; `failed` records an earlier failure.
    RemoveWorkspace { failed: bool },
    /// Nothing is left to do; `ok` tells whether the chapter succeeded.
    Finished { ok: bool },
}

/// The step that follows `s` when its work ended with success `ok`.
pub open spec fn stage_after(s: Stage, ok: bool) -> Stage {
    match s {
        Stage::ListPages => if ok {
            Stage::CreateWorkspace
        } else {
            Stage::Finished { ok: false }
        },
        Stage::CreateWorkspace => if ok {
            Stage::FetchPages
        } else {
            Stage::RemoveWorkspace { failed: true }
        },
        Stage::FetchPages => Stage::BuildDocument,
        Stage::BuildDocument => if ok {
            Stage::CopyDocument
        } else {
            Stage::RemoveWorkspace { failed: true }
        },
        Stage::CopyDocument => Stage::RemoveWorkspace { failed: !ok },
        Stage::RemoveWorkspace { failed } => Stage::Finished { ok: ok && !failed },
        Stage::Finished { ok: done } => Stage::Finished { ok: done },
    }
}

/// The step that follows `s` when its work ended with success `ok`.
pub fn next_stage(s: Stage, ok: bool) -> (r: Stage)
    ensures
        r == stage_after(s, ok),
{
    match s {
        Stage::ListPages => if ok {
            Stage::CreateWorkspace
        } else {
            Stage::Finished { ok: false }
        },
        Stage::CreateWorkspace => if ok {
            Stage::FetchPages
        } else {
            Stage::RemoveWorkspace { failed: true }
        },
        Stage::FetchPages => Stage::BuildDocument,
        Stage::BuildDocument => if ok {
            Stage::CopyDocument
        } else {
            Stage::RemoveWorkspace { failed: true }
        },
        Stage::CopyDocument => Stage::RemoveWorkspace { failed: !ok },
        Stage::RemoveWorkspace { failed } => Stage::Finished { ok: ok && !failed },
        Stage::Finished { ok: done } => Stage::Finished { ok: done },
    }
}

/// The step reached from `s` after work with the outcomes `events`.
pub open spec fn run(s: Stage, events: Seq<bool>) -> Stage
    decreases events.len(),
{
    if events.len() == 0 {
        s
    } else {
        run(stage_after(s, events[0]), events.drop_first())
    }
}

/// The run from `s` with outcomes `events` passes through workspace removal.
pub open spec fn removes_workspace(s: Stage, events: Seq<bool>) -> bool
    decreases events.len(),
{
    if s is RemoveWorkspace {
        true
    } else if events.len() == 0 {
        false
    } else {
        removes_workspace(stage_after(s, events[0]), events.drop_first())
    }
}

/// The workspace may exist at step `s`.
pub open spec fn holds_workspace(s: Stage) -> bool {
    s is CreateWorkspace || s is FetchPages || s is BuildDocument || s is CopyDocument
        || s is RemoveWorkspace
}

proof fn lemma_held_workspace_removed(s: Stage, events: Seq<bool>)
    requires
        holds_workspace(s),
        run(s, events) is Finished,
    ensures
        removes_workspace(s, events),
    decreases events.len(),
{
    if !(s is RemoveWorkspace) && events.len() > 0 {
        lemma_held_workspace_removed(stage_after(s, events[0]), events.drop_first());
    }
}

/// Once the page list is read, a chapter's assembly finishes, whether it
/// succeeds or fails, only by way of removing its workspace.
pub proof fn lemma_workspace_removed_on_finish(events: Seq<bool>)
    requires
        events.len() > 0,
        events[0],
        run(Stage::ListPages, events) is Finished,
    ensures
        removes_workspace(Stage::ListPages, events),
{
    lemma_held_workspace_removed(Stage::CreateWorkspace, events.drop_first());
}

/// A chapter succeeds only when its page list was read, its workspace was
/// made, and its document was built, copied out and its workspace removed.
pub proof fn lemma_success_needs_every_step(events: Seq<bool>)
    requires
        run(Stage::ListPages, events) == (Stage::Finished { ok: true }),
    ensures
        events.len() >= 6,
        events[0] && events[1] && events[3] && events[4] && events[5],
{
    let e1 = events.drop_first();
    let e2 = e1.drop_first();
    let e3 = e2.drop_first();
    let e4 = e3.drop_first();
    let e5 = e4.drop_first();
    assert(events.len() > 0);
    if !events[0] {
        lemma_failure_stays(e1);
    }
    assert(run(Stage::ListPages, events) == run(Stage::CreateWorkspace, e1));
    assert(e1.len() > 0);
    if !e1[0] {
        lemma_removal_after_failure(e2);
    }
    assert(run(Stage::CreateWorkspace, e1) == run(Stage::FetchPages, e2));
    assert(e2.len() > 0);
    assert(run(Stage::FetchPages, e2) == run(Stage::BuildDocument, e3));
    assert(e3.len() > 0);
    if !e3[0] {
        lemma_removal_after_failure(e4);
    }
    assert(run(Stage::BuildDocument, e3) == run(Stage::CopyDocument, e4));
    assert(e4.len() > 0);
    if !e4[0] {
        lemma_removal_after_failure(e5);
    }
    assert(run(Stage::CopyDocument, e4) == run(Stage::RemoveWorkspace { failed: false }, e5));
    assert(e5.len() > 0);
    if !e5[0] {
        lemma_failure_stays(e5.drop_first());
    }
    assert(e1[0] == events[1] && e3[0] == events[3] && e4[0] == events[4] && e5[0] == events[5]);
}

proof fn lemma_failure_stays(events: Seq<bool>)
    ensures
        run(Stage::Finished { ok: false }, events) == (Stage::Finished { ok: false }),
    decreases events.len(),
{
    if events.len() > 0 {
        lemma_failure_stays(events.drop_first());
    }
}

proof fn lemma_removal_after_failure(events: Seq<bool>)
    ensures
        run(Stage::RemoveWorkspace { failed: true }, events) != (Stage::Finished { ok: true }),
{
    if events.len() > 0 {
        lemma_failure_stays(events.drop_first());
    }
}

} // verus!
