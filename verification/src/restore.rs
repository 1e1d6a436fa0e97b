//! Restoring interrupted tasks after a reboot or a tmux server restart:
//! the steps for each task, what a failed step leads to, and the tally of
//! restored and failed tasks.
use vstd::prelude::*;
use crate::orchestrator::RestoreResult;
use crate::text::strings_view;

verus! {

/// The steps of restoring one task, in order: claim it (so that one `ab`
/// process restores it), find its worktree, create its session, relaunch
/// its agent, record the session in the store.
#[derive(Clone, Copy, Debug, PartialEq, Eq, Structural)]
pub enum RestoreStage {
    Claim,
    Worktree,
    Session,
    Spawn,
    Record,
}

/// What follows a step.
#[derive(Clone, Copy, Debug, PartialEq, Eq, Structural)]
pub enum RestoreAction {
    /// Leave the task alone (another process claimed it).
    Skip,
    /// Go on with the next step.
    Proceed,
    /// The task could not be restored: end the new session where one was
    /// made, move the task to Blocked, and count it as failed.
    Fail { kill_session: bool, mark_blocked: bool },
    /// The task runs again in its new session.
    Restored,
}

/// What follows a step that succeeded or failed. A lost claim skips the
/// task; a missing worktree or a session that could not be made fails it;
/// an agent that could not be launched or a store that could not be updated
/// fails it and ends the new session. Every failure moves the task to
/// Blocked.
pub open spec fn restore_step_spec(stage: RestoreStage, succeeded: bool) -> RestoreAction {
    match stage {
        RestoreStage::Claim => if succeeded {
            RestoreAction::Proceed
        } else {
            RestoreAction::Skip
        },
        RestoreStage::Worktree | RestoreStage::Session => if succeeded {
            RestoreAction::Proceed
        } else {
            RestoreAction::Fail { kill_session: false, mark_blocked: true }
        },
        RestoreStage::Spawn => if succeeded {
            RestoreAction::Proceed
        } else {
            RestoreAction::Fail { kill_session: true, mark_blocked: true }
        },
        RestoreStage::Record => if succeeded {
            RestoreAction::Restored
        } else {
            RestoreAction::Fail { kill_session: true, mark_blocked: true }
        },
    }
}

/// What follows a restoration step (see [`restore_step_spec`]).
pub fn restore_step(stage: RestoreStage, succeeded: bool) -> (r: RestoreAction)
    ensures
        r == restore_step_spec(stage, succeeded),
{
    match stage {
        RestoreStage::Claim => if succeeded {
            RestoreAction::Proceed
        } else {
            RestoreAction::Skip
        },
        RestoreStage::Worktree | RestoreStage::Session => if succeeded {
            RestoreAction::Proceed
        } else {
            RestoreAction::Fail { kill_session: false, mark_blocked: true }
        },
        RestoreStage::Spawn => if succeeded {
            RestoreAction::Proceed
        } else {
            RestoreAction::Fail { kill_session: true, mark_blocked: true }
        },
        RestoreStage::Record => if succeeded {
            RestoreAction::Restored
        } else {
            RestoreAction::Fail { kill_session: true, mark_blocked: true }
        },
    }
}

/// The step at a place in the order.
pub open spec fn stage_at(i: int) -> RestoreStage {
    if i <= 0 {
        RestoreStage::Claim
    } else if i == 1 {
        RestoreStage::Worktree
    } else if i == 2 {
        RestoreStage::Session
    } else if i == 3 {
        RestoreStage::Spawn
    } else {
        RestoreStage::Record
    }
}

/// Whether step `i` succeeded, of the results given (later ones succeed).
pub open spec fn step_ok(results: Seq<bool>, i: int) -> bool {
    if 0 <= i < results.len() {
        results[i]
    } else {
        true
    }
}

/// How restoring a task ends when its steps from `i` on have these results:
/// the steps run in order until one does not say `Proceed`.
pub open spec fn restore_outcome_from(results: Seq<bool>, i: int) -> RestoreAction
    decreases 4 - i,
{
    let a = restore_step_spec(stage_at(i), step_ok(results, i));
    if i < 4 && a == RestoreAction::Proceed {
        restore_outcome_from(results, i + 1)
    } else {
        a
    }
}

/// How restoring a task ends, given the results of its steps.
pub open spec fn restore_outcome(results: Seq<bool>) -> RestoreAction {
    restore_outcome_from(results, 0)
}

proof fn lemma_outcome_settled(results: Seq<bool>, i: int)
    requires
        0 <= i <= 4,
    ensures
        restore_outcome_from(results, i) != RestoreAction::Proceed,
        restore_outcome_from(results, i) matches RestoreAction::Fail { mark_blocked, .. } ==> mark_blocked,
        restore_outcome_from(results, i) == RestoreAction::Skip ==> i == 0,
    decreases 4 - i,
{
    if i < 4 && restore_step_spec(stage_at(i), step_ok(results, i)) == RestoreAction::Proceed {
        lemma_outcome_settled(results, i + 1);
    }
}

/// Every task whose restoration starts ends settled: skipped (its claim was
/// lost), restored, or failed and moved to Blocked; never still under way.
/// A task that was claimed is never skipped.
pub proof fn law_restore_ends_settled(results: Seq<bool>)
    ensures
        restore_outcome(results) != RestoreAction::Proceed,
        restore_outcome(results) matches RestoreAction::Fail { mark_blocked, .. } ==> mark_blocked,
        step_ok(results, 0) ==> restore_outcome(results) != RestoreAction::Skip,
{
    lemma_outcome_settled(results, 0);
    if step_ok(results, 0) {
        lemma_outcome_settled(results, 1);
    }
}

/// The tasks counted restored and failed, task by task.
pub open spec fn restore_tally(ids: Seq<Seq<char>>, actions: Seq<RestoreAction>) -> (Seq<Seq<char>>, Seq<Seq<char>>)
    decreases ids.len(),
{
    if ids.len() == 0 || actions.len() == 0 {
        (seq![], seq![])
    } else {
        let (r, f) = restore_tally(ids.drop_last(), actions.drop_last());
        match actions.last() {
            RestoreAction::Restored => (r.push(ids.last()), f),
            RestoreAction::Fail { .. } => (r, f.push(ids.last())),
            _ => (r, f),
        }
    }
}

/// Count a task as restored or failed once its restoration has ended.
pub fn record_restore(result: &mut RestoreResult, id: String, action: RestoreAction)
    ensures
        action == RestoreAction::Restored ==> strings_view(final(result).restored@) == strings_view(
            old(result).restored@,
        ).push(id@) && final(result).failed@ == old(result).failed@,
        action is Fail ==> strings_view(final(result).failed@) == strings_view(old(result).failed@).push(
            id@,
        ) && final(result).restored@ == old(result).restored@,
        !(action == RestoreAction::Restored) && !(action is Fail) ==> final(result).restored@ == old(
            result,
        ).restored@ && final(result).failed@ == old(result).failed@,
{
    match action {
        RestoreAction::Restored => {
            result.restored.push(id);
            proof {
                assert(strings_view(result.restored@) =~= strings_view(old(result).restored@).push(id@));
            }
        },
        RestoreAction::Fail { .. } => {
            result.failed.push(id);
            proof {
                assert(strings_view(result.failed@) =~= strings_view(old(result).failed@).push(id@));
            }
        },
        _ => {},
    }
}

proof fn lemma_tally_from_ids(ids: Seq<Seq<char>>, actions: Seq<RestoreAction>)
    ensures
        forall|x: Seq<char>| restore_tally(ids, actions).0.contains(x) ==> ids.contains(x),
        forall|x: Seq<char>| restore_tally(ids, actions).1.contains(x) ==> ids.contains(x),
    decreases ids.len(),
{
    if ids.len() > 0 && actions.len() > 0 {
        let init = ids.drop_last();
        lemma_tally_from_ids(init, actions.drop_last());
        let (r, f) = restore_tally(init, actions.drop_last());
        assert forall|x: Seq<char>| init.contains(x) implies ids.contains(x) by {
            let i = choose|i: int| 0 <= i < init.len() && init[i] == x;
            assert(ids[i] == x);
        }
        assert(ids.contains(ids.last())) by {
            assert(ids[ids.len() - 1] == ids.last());
        }
        assert forall|x: Seq<char>| r.push(ids.last()).contains(x) implies ids.contains(x) by {
            let i = choose|i: int| 0 <= i < r.push(ids.last()).len() && r.push(ids.last())[i] == x;
            if i < r.len() {
                assert(r[i] == x);
            }
        }
        assert forall|x: Seq<char>| f.push(ids.last()).contains(x) implies ids.contains(x) by {
            let i = choose|i: int| 0 <= i < f.push(ids.last()).len() && f.push(ids.last())[i] == x;
            if i < f.len() {
                assert(f[i] == x);
            }
        }
    }
}

proof fn lemma_push_no_dup(s: Seq<Seq<char>>, x: Seq<char>)
    requires
        s.no_duplicates(),
        !s.contains(x),
    ensures
        s.push(x).no_duplicates(),
{
    let t = s.push(x);
    assert forall|a: int, b: int| 0 <= a < b < t.len() implies t[a] != t[b] by {
        if b == s.len() {
            assert(t[a] == s[a]);
        } else {
            assert(t[a] == s[a] && t[b] == s[b]);
        }
    }
}

/// With each task's id given once, no task is counted twice, and none is
/// counted both restored and failed: a task is counted restored exactly when
/// its restoration ended `Restored`, and failed exactly when it ended in a
/// failure.
pub proof fn law_restore_tally_is_clean(ids: Seq<Seq<char>>, actions: Seq<RestoreAction>)
    requires
        ids.no_duplicates(),
        ids.len() == actions.len(),
    ensures
        restore_tally(ids, actions).0.no_duplicates(),
        restore_tally(ids, actions).1.no_duplicates(),
        forall|x: Seq<char>| !(restore_tally(ids, actions).0.contains(x) && restore_tally(ids, actions).1.contains(x)),
        forall|i: int| 0 <= i < ids.len() ==> (restore_tally(ids, actions).0.contains(#[trigger] ids[i]) <==> actions[i]
            == RestoreAction::Restored),
        forall|i: int| 0 <= i < ids.len() ==> (restore_tally(ids, actions).1.contains(#[trigger] ids[i]) <==> actions[i]
            is Fail),
    decreases ids.len(),
{
    if ids.len() > 0 {
        let init = ids.drop_last();
        let ainit = actions.drop_last();
        assert(init.no_duplicates()) by {
            assert forall|a: int, b: int| 0 <= a < b < init.len() implies init[a] != init[b] by {
                assert(init[a] == ids[a] && init[b] == ids[b]);
            }
        }
        law_restore_tally_is_clean(init, ainit);
        lemma_tally_from_ids(init, ainit);
        let (r, f) = restore_tally(init, ainit);
        let last = ids.last();
        assert(!init.contains(last)) by {
            if init.contains(last) {
                let i = choose|i: int| 0 <= i < init.len() && init[i] == last;
                assert(ids[i] == ids[ids.len() - 1]);
            }
        }
        assert(!r.contains(last));
        assert(!f.contains(last));
        let (r2, f2) = restore_tally(ids, actions);
        if actions.last() == RestoreAction::Restored {
            lemma_push_no_dup(r, last);
        } else if actions.last() is Fail {
            lemma_push_no_dup(f, last);
        }
        assert forall|x: Seq<char>| !(r2.contains(x) && f2.contains(x)) by {
            if r2.contains(x) && f2.contains(x) {
                if x == last {
                } else {
                    let i = choose|i: int| 0 <= i < r2.len() && r2[i] == x;
                    let j = choose|j: int| 0 <= j < f2.len() && f2[j] == x;
                    if i < r.len() {
                        assert(r[i] == x);
                    }
                    if j < f.len() {
                        assert(f[j] == x);
                    }
                }
            }
        }
        assert forall|i: int| 0 <= i < ids.len() implies (r2.contains(#[trigger] ids[i]) <==> actions[i]
            == RestoreAction::Restored) && (f2.contains(ids[i]) <==> actions[i] is Fail) by {
            if i < init.len() {
                assert(init[i] == ids[i]);
                assert(ainit[i] == actions[i]);
                assert(ids[i] != last);
                if r2.contains(ids[i]) {
                    let k = choose|k: int| 0 <= k < r2.len() && r2[k] == ids[i];
                    if k < r.len() {
                        assert(r[k] == ids[i]);
                    }
                }
                if r.contains(ids[i]) {
                    let k = choose|k: int| 0 <= k < r.len() && r[k] == ids[i];
                    assert(r2[k] == ids[i]);
                }
                if f2.contains(ids[i]) {
                    let k = choose|k: int| 0 <= k < f2.len() && f2[k] == ids[i];
                    if k < f.len() {
                        assert(f[k] == ids[i]);
                    }
                }
                if f.contains(ids[i]) {
                    let k = choose|k: int| 0 <= k < f.len() && f[k] == ids[i];
                    assert(f2[k] == ids[i]);
                }
            } else {
                if actions.last() == RestoreAction::Restored {
                    assert(r2[r.len() as int] == last);
                } else if actions.last() is Fail {
                    assert(f2[f.len() as int] == last);
                }
            }
        }
    }
}

// ---------------------------------------------------------------------------
// Starting a task
// ---------------------------------------------------------------------------

/// The steps of starting a task that can fail after something was made:
/// creating its worktree, its session, launching the agent, recording the
/// task.
#[derive(Clone, Copy, Debug, PartialEq, Eq, Structural)]
pub enum StartStage {
    Worktree,
    Session,
    Spawn,
    Record,
}

/// What a failed start step leaves to clean up: whether to end the new
/// session, and whether to remove the new worktree. Nothing made before the
/// failure is left behind.
pub open spec fn start_cleanup_spec(stage: StartStage) -> (bool, bool) {
    match stage {
        StartStage::Worktree => (false, false),
        StartStage::Session => (false, true),
        StartStage::Spawn | StartStage::Record => (true, true),
    }
}

/// The clean-up after a failed start step (see [`start_cleanup_spec`]).
pub fn start_cleanup(stage: StartStage) -> (r: (bool, bool))
    ensures
        r == start_cleanup_spec(stage),
{
    match stage {
        StartStage::Worktree => (false, false),
        StartStage::Session => (false, true),
        StartStage::Spawn | StartStage::Record => (true, true),
    }
}

} // verus!
