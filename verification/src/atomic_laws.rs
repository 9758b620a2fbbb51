//! What a replacement does to the contents of files.

use vstd::prelude::*;

use crate::atomic::{
    after_outcomes, law_replacement_ends, law_target_is_touched_last, law_temp_is_beside, succeeded,
    temp_path_of, WriteAction, WriteStep,
};
use crate::path::{file_name_of, parent_of};

verus! {

/// The contents of all files, by path.
pub type Files = Map<Seq<char>, Seq<u8>>;

/// What a replacement is to do: put `data` at `target`. The process and the time tell its temporary
/// file apart.
pub struct Replacement {
    pub target: Seq<char>,
    pub data: Seq<u8>,
    pub pid: nat,
    pub timestamp: nat,
}

impl Replacement {
    /// The path of the temporary file. It means something only where the target's path ends in a
    /// name.
    pub open spec fn temp(self) -> Seq<char> {
        temp_path_of(self.target, self.pid, self.timestamp)->0
    }
}

/// The contents of the file at `path`, where there is one.
pub open spec fn contents(files: Files, path: Seq<char>) -> Option<Seq<u8>> {
    if files.dom().contains(path) {
        Some(files[path])
    } else {
        None
    }
}

/// Whether the temporary file holds a part of the new contents, and nothing else has changed.
pub open spec fn partly_written(job: Replacement, before: Files, after: Files) -> bool {
    exists|n: int|
        0 <= n <= job.data.len() && after == before.insert(job.temp(), #[trigger] job.data.take(n))
}

/// What a piece of work does to the files. The target's directory and name are found just where its
/// path has them. Work that fails leaves the files alone, but for a write, which can stop anywhere. The temporary file is created only where there was none, and takes the
/// target's place in one go.
pub open spec fn leaves(
    step: WriteStep,
    success: bool,
    job: Replacement,
    before: Files,
    after: Files,
) -> bool {
    match step {
        WriteStep::FindParent => success == parent_of(job.target) is Some && after == before,
        WriteStep::FindName => success == file_name_of(job.target) is Some && after == before,
        WriteStep::Create if success => !before.dom().contains(job.temp()) && after == before.insert(
            job.temp(),
            Seq::empty(),
        ),
        WriteStep::Write => if success {
            after == before.insert(job.temp(), job.data)
        } else {
            partly_written(job, before, after)
        },
        WriteStep::Rename if success => after == before.remove(job.temp()).insert(
            job.target,
            before[job.temp()],
        ),
        _ => after == before,
    }
}

/// What may be seen of the files from the time at which an action is due: all that a piece of work
/// can leave while it runs, and a temporary file that is removed or not when it is discarded.
pub open spec fn shows(action: WriteAction, job: Replacement, before: Files, now: Files) -> bool {
    now == before || match action {
        WriteAction::Run(step) => leaves(step, true, job, before, now) || leaves(
            step,
            false,
            job,
            before,
            now,
        ),
        WriteAction::Discard(_) => now == before.remove(job.temp()),
        WriteAction::Done | WriteAction::Fail(_) => false,
    }
}

/// Whether `trace` holds the files before a replacement and after each piece of work, the pieces
/// having the given outcomes.
pub open spec fn traces(job: Replacement, outcomes: Seq<bool>, trace: Seq<Files>) -> bool {
    &&& trace.len() == outcomes.len() + 1
    &&& forall|i: int|
        0 <= i < outcomes.len() ==> match after_outcomes(#[trigger] outcomes.take(i)) {
            WriteAction::Run(step) => leaves(step, outcomes[i], job, trace[i], trace[i + 1]),
            _ => trace[i + 1] == trace[i],
        }
}

/// What the files hold when an action is due.
spec fn holds(action: WriteAction, job: Replacement, old: Files, now: Files) -> bool {
    let named = file_name_of(job.target) is Some;
    let fresh = named && !old.dom().contains(job.temp());
    match action {
        WriteAction::Run(WriteStep::Create) => named && now == old,
        WriteAction::Run(WriteStep::Write) => fresh && now == old.insert(job.temp(), Seq::empty()),
        WriteAction::Run(WriteStep::Sync) | WriteAction::Run(WriteStep::Rename) => fresh && now
            == old.insert(job.temp(), job.data),
        WriteAction::Run(_) | WriteAction::Fail(_) => now == old,
        WriteAction::Done => fresh && now == old.insert(job.target, job.data),
        WriteAction::Discard(_) => named && now.remove(job.temp()) == old.remove(job.temp()),
    }
}

/// The outcomes so far tell what the files hold.
proof fn lemma_holds(job: Replacement, outcomes: Seq<bool>, trace: Seq<Files>)
    requires
        traces(job, outcomes, trace),
    ensures
        holds(after_outcomes(outcomes), job, trace[0], trace.last()),
    decreases outcomes.len(),
{
    law_temp_is_beside(job.target, job.pid, job.timestamp);
    if outcomes.len() > 0 {
        let n = outcomes.len() - 1;
        let rest = outcomes.drop_last();
        let (old, before, now) = (trace[0], trace[n], trace[n + 1]);
        assert(outcomes.take(n) == rest);
        assert forall|i: int| 0 <= i < rest.len() implies match after_outcomes(
            #[trigger] rest.take(i),
        ) {
            WriteAction::Run(step) => leaves(
                step,
                rest[i],
                job,
                trace.drop_last()[i],
                trace.drop_last()[i + 1],
            ),
            _ => trace.drop_last()[i + 1] == trace.drop_last()[i],
        } by {
            assert(rest.take(i) == outcomes.take(i));
        }
        lemma_holds(job, rest, trace.drop_last());
        assert(holds(after_outcomes(rest), job, old, before));
        match after_outcomes(rest) {
            WriteAction::Run(WriteStep::Write) => {
                assert(before.insert(job.temp(), job.data) == old.insert(job.temp(), job.data));
                assert(now.remove(job.temp()) == old.remove(job.temp()));
            },
            WriteAction::Run(WriteStep::Sync) => {
                assert(now.remove(job.temp()) == old.remove(job.temp()));
            },
            WriteAction::Run(WriteStep::Rename) => {
                if outcomes.last() {
                    assert(now == old.insert(job.target, job.data));
                } else {
                    assert(now.remove(job.temp()) == old.remove(job.temp()));
                }
            },
            _ => {},
        }
    }
}

/// Readers of the target see its old contents or the new, never a part: at every moment of a
/// replacement, whatever the outcomes of its pieces of work, the target is as it was or holds all
/// of the new contents. It changes only once all of them were written to a hidden file in the
/// target's directory that was not there before, and brought to the disk. No other file but that
/// one changes at all.
pub proof fn law_old_or_new(
    job: Replacement,
    outcomes: Seq<bool>,
    trace: Seq<Files>,
    now: Files,
    other: Seq<char>,
)
    requires
        traces(job, outcomes, trace),
        shows(after_outcomes(outcomes), job, trace.last(), now),
    ensures
        contents(now, job.target) == contents(trace[0], job.target) || contents(now, job.target)
            == Some(job.data),
        contents(now, job.target) != contents(trace[0], job.target) ==> succeeded(outcomes, 6)
            && contents(trace[0], job.temp()) is None && contents(trace[6], job.temp()) == Some(
            job.data,
        ) && temp_path_of(job.target, job.pid, job.timestamp) == Some(job.temp())
            && parent_of(job.temp()) == parent_of(job.target) && file_name_of(job.temp())
            != file_name_of(job.target) && file_name_of(job.temp())->0[0] == '.',
        other != job.target && temp_path_of(job.target, job.pid, job.timestamp) != Some(other)
            ==> contents(now, other) == contents(trace[0], other),
{
    law_temp_is_beside(job.target, job.pid, job.timestamp);
    lemma_holds(job, outcomes, trace);
    law_target_is_touched_last(outcomes);
    law_replacement_ends(outcomes, 0);
    let (old, before) = (trace[0], trace.last());
    let action = after_outcomes(outcomes);
    if action is Discard {
        assert(contents(before.remove(job.temp()), job.target) == contents(before, job.target));
        assert(contents(old.remove(job.temp()), job.target) == contents(old, job.target));
        assert(other != job.temp() ==> contents(before.remove(job.temp()), other) == contents(
            before,
            other,
        ));
        assert(other != job.temp() ==> contents(old.remove(job.temp()), other) == contents(old, other));
    }
    if contents(now, job.target) != contents(old, job.target) {
        let first = outcomes.take(6);
        assert(succeeded(outcomes, 6));
        assert forall|i: int| 0 <= i < 6 implies match after_outcomes(#[trigger] first.take(i)) {
            WriteAction::Run(step) => leaves(
                step,
                first[i],
                job,
                trace.take(7)[i],
                trace.take(7)[i + 1],
            ),
            _ => trace.take(7)[i + 1] == trace.take(7)[i],
        } by {
            assert(first.take(i) == outcomes.take(i));
        }
        law_target_is_touched_last(first);
        lemma_holds(job, first, trace.take(7));
    }
}

/// How the files are in the end: a replacement that is done has put the new contents at the target
/// and left no temporary file, and one that failed has left the target as it was. Where it failed
/// before the temporary file was due it has changed nothing, and where the temporary file could be
/// removed there is none.
pub proof fn law_replaced_or_not(
    job: Replacement,
    outcomes: Seq<bool>,
    trace: Seq<Files>,
    now: Files,
)
    requires
        traces(job, outcomes, trace),
        shows(after_outcomes(outcomes), job, trace.last(), now),
    ensures
        after_outcomes(outcomes) is Done ==> now == trace[0].insert(job.target, job.data)
            && contents(now, job.target) == Some(job.data) && contents(now, job.temp()) is None,
        after_outcomes(outcomes) is Fail ==> now == trace[0],
        after_outcomes(outcomes) is Discard ==> contents(now, job.target) == contents(
            trace[0],
            job.target,
        ) && now.remove(job.temp()) == trace[0].remove(job.temp()),
        after_outcomes(outcomes) is Discard && now == trace.last().remove(job.temp()) ==> contents(
            now,
            job.temp(),
        ) is None,
{
    law_temp_is_beside(job.target, job.pid, job.timestamp);
    lemma_holds(job, outcomes, trace);
    let (old, before) = (trace[0], trace.last());
    if after_outcomes(outcomes) is Discard {
        assert(now.remove(job.temp()) == before.remove(job.temp()));
        assert(contents(now.remove(job.temp()), job.target) == contents(now, job.target));
        assert(contents(old.remove(job.temp()), job.target) == contents(old, job.target));
    }
}

/// A target whose path has no directory is refused before anything is done, and one whose path ends
/// in no name once its directory is there.
pub proof fn law_refused_targets(job: Replacement, outcomes: Seq<bool>, trace: Seq<Files>)
    requires
        traces(job, outcomes, trace),
    ensures
        parent_of(job.target) is None && outcomes.len() > 0 ==> after_outcomes(outcomes)
            == WriteAction::Fail(WriteStep::FindParent),
        parent_of(job.target) is Some && file_name_of(job.target) is None && outcomes.len() > 2
            && outcomes[1] ==> after_outcomes(outcomes) == WriteAction::Fail(WriteStep::FindName),
        after_outcomes(outcomes) is Done ==> file_name_of(job.target) is Some,
{
    lemma_holds(job, outcomes, trace);
    if outcomes.len() > 0 {
        assert(after_outcomes(outcomes.take(0)) == WriteAction::Run(WriteStep::FindParent));
        assert(outcomes[0] == parent_of(job.target) is Some);
        if !outcomes[0] {
            law_replacement_ends(outcomes, 0);
        } else if outcomes.len() > 2 && outcomes[1] {
            assert(outcomes.take(1).drop_last() == outcomes.take(0));
            assert(outcomes.take(2).drop_last() == outcomes.take(1));
            assert(after_outcomes(outcomes.take(1)) == WriteAction::Run(WriteStep::MakeParent));
            assert(after_outcomes(outcomes.take(2)) == WriteAction::Run(WriteStep::FindName));
            assert(outcomes[2] == file_name_of(job.target) is Some);
            law_replacement_ends(outcomes, 2);
        }
    }
}

} // verus!
