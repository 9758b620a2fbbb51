//! Replacing a file so that its readers see the old contents or the new, never a part: the new
//! contents go to a temporary file beside it, which then takes its place.

use vstd::prelude::*;
use vstd::string::*;

use crate::path::{
    file_name, file_name_of, is_name, join_path, joined, law_file_name, law_joined, parent, parent_of,
};

verus! {

/// One piece of work of a replacement.
#[derive(Debug, Clone, Copy, PartialEq, Eq, Structural)]
pub enum WriteStep {
    /// Find the directory in the target's path; there may be none.
    FindParent,
    /// Make sure that the directory is there.
    MakeParent,
    /// Find the file's name in the target's path; there may be none.
    FindName,
    /// Create the temporary file, which must not be there yet.
    Create,
    /// Write the contents to it.
    Write,
    /// Bring them to the disk.
    Sync,
    /// Put it in the place of the target.
    Rename,
}

/// What to do next in a replacement.
#[derive(Debug, Clone, Copy, PartialEq, Eq, Structural)]
pub enum WriteAction {
    /// Do a piece of work.
    Run(WriteStep),
    /// Stop: the target is replaced.
    Done,
    /// Stop: a piece of work failed before there could be a temporary file.
    Fail(WriteStep),
    /// Remove the temporary file, whether or not that succeeds, and stop: a piece of work failed.
    Discard(WriteStep),
}

/// Whether a piece of work comes before the temporary file is created.
pub open spec fn prepares(step: WriteStep) -> bool {
    step == WriteStep::FindParent || step == WriteStep::MakeParent || step == WriteStep::FindName
}

/// What follows a piece of work.
pub open spec fn follows(step: WriteStep, succeeded: bool) -> WriteAction {
    if !succeeded {
        if prepares(step) {
            WriteAction::Fail(step)
        } else {
            WriteAction::Discard(step)
        }
    } else {
        match step {
            WriteStep::FindParent => WriteAction::Run(WriteStep::MakeParent),
            WriteStep::MakeParent => WriteAction::Run(WriteStep::FindName),
            WriteStep::FindName => WriteAction::Run(WriteStep::Create),
            WriteStep::Create => WriteAction::Run(WriteStep::Write),
            WriteStep::Write => WriteAction::Run(WriteStep::Sync),
            WriteStep::Sync => WriteAction::Run(WriteStep::Rename),
            WriteStep::Rename => WriteAction::Done,
        }
    }
}

/// What to do after pieces of work with the given outcomes, in turn.
pub open spec fn after_outcomes(outcomes: Seq<bool>) -> WriteAction
    decreases outcomes.len(),
{
    if outcomes.len() == 0 {
        WriteAction::Run(WriteStep::FindParent)
    } else {
        match after_outcomes(outcomes.drop_last()) {
            WriteAction::Run(step) => follows(step, outcomes.last()),
            stopped => stopped,
        }
    }
}

/// The decimal digits of a number.
pub open spec fn decimal(n: nat) -> Seq<char>
    decreases n,
{
    let digit = ('0' as int + n % 10) as char;
    if n < 10 {
        seq![digit]
    } else {
        decimal(n / 10).push(digit)
    }
}

/// The name of the temporary file for the file `name`.
pub open spec fn temp_name_of(name: Seq<char>, pid: nat, timestamp: nat) -> Seq<char> {
    "."@ + name + ".tmp-"@ + decimal(pid) + "-"@ + decimal(timestamp)
}

/// The path of the temporary file for the file at `path`: it lies in the same directory.
pub open spec fn temp_path_of(path: Seq<char>, pid: nat, timestamp: nat) -> Option<Seq<char>> {
    match (parent_of(path), file_name_of(path)) {
        (Some(dir), Some(name)) => Some(joined(dir, temp_name_of(name, pid, timestamp))),
        _ => None,
    }
}

/// What to do after a piece of work. A replacement starts with `WriteStep::FindParent`.
pub fn atomic_write(step: WriteStep, succeeded: bool) -> (r: WriteAction)
    ensures
        r == follows(step, succeeded),
{
    match step {
        WriteStep::FindParent => if succeeded {
            WriteAction::Run(WriteStep::MakeParent)
        } else {
            WriteAction::Fail(step)
        },
        WriteStep::MakeParent => if succeeded {
            WriteAction::Run(WriteStep::FindName)
        } else {
            WriteAction::Fail(step)
        },
        WriteStep::FindName => if succeeded {
            WriteAction::Run(WriteStep::Create)
        } else {
            WriteAction::Fail(step)
        },
        WriteStep::Create => if succeeded {
            WriteAction::Run(WriteStep::Write)
        } else {
            WriteAction::Discard(step)
        },
        WriteStep::Write => if succeeded {
            WriteAction::Run(WriteStep::Sync)
        } else {
            WriteAction::Discard(step)
        },
        WriteStep::Sync => if succeeded {
            WriteAction::Run(WriteStep::Rename)
        } else {
            WriteAction::Discard(step)
        },
        WriteStep::Rename => if succeeded {
            WriteAction::Done
        } else {
            WriteAction::Discard(step)
        },
    }
}

/// Appends the decimal digits of a number.
fn push_decimal(out: &mut String, n: u128)
    ensures
        final(out)@ == old(out)@ + decimal(n as nat),
    decreases n,
{
    let digit = ('0' as u8 + (n % 10) as u8) as char;
    if n >= 10 {
        push_decimal(out, n / 10);
    }
    out.push(digit);
    assert(out@ == old(out)@ + decimal(n as nat));
}

/// The name of the temporary file for the file `file_name`: hidden, and told apart by the process
/// and the time.
pub fn temp_name(file_name: &str, pid: u32, timestamp: u128) -> (r: String)
    ensures
        r@ == temp_name_of(file_name@, pid as nat, timestamp as nat),
{
    let mut r = ".".to_owned();
    r.append(file_name);
    r.append(".tmp-");
    push_decimal(&mut r, pid as u128);
    r.append("-");
    push_decimal(&mut r, timestamp);
    r
}

/// The path of the temporary file for the file at `path`: there is none where the path has no
/// directory or no name.
pub fn temp_path(path: &str, pid: u32, timestamp: u128) -> (r: Option<String>)
    ensures
        match r {
            Some(temp) => temp_path_of(path@, pid as nat, timestamp as nat) == Some(temp@),
            None => temp_path_of(path@, pid as nat, timestamp as nat) is None,
        },
{
    match (parent(path), file_name(path)) {
        (Some(dir), Some(name)) => Some(
            join_path(dir.as_str(), temp_name(name.as_str(), pid, timestamp).as_str()),
        ),
        _ => None,
    }
}

/// How many outcomes before the first failure.
spec fn successes(outcomes: Seq<bool>) -> nat
    decreases outcomes.len(),
{
    if outcomes.len() == 0 || !outcomes[0] {
        0
    } else {
        1 + successes(outcomes.drop_first())
    }
}

/// The piece of work that follows `n` others.
pub open spec fn step_at(n: int) -> WriteStep {
    if n == 0 {
        WriteStep::FindParent
    } else if n == 1 {
        WriteStep::MakeParent
    } else if n == 2 {
        WriteStep::FindName
    } else if n == 3 {
        WriteStep::Create
    } else if n == 4 {
        WriteStep::Write
    } else if n == 5 {
        WriteStep::Sync
    } else {
        WriteStep::Rename
    }
}

/// All outcomes before the first failure are successes.
proof fn lemma_successes(outcomes: Seq<bool>)
    ensures
        successes(outcomes) <= outcomes.len(),
        forall|i: int| 0 <= i < successes(outcomes) ==> outcomes[i],
        successes(outcomes) < outcomes.len() ==> !outcomes[successes(outcomes) as int],
    decreases outcomes.len(),
{
    if outcomes.len() > 0 && outcomes[0] {
        let rest = outcomes.drop_first();
        lemma_successes(rest);
        assert forall|i: int| 0 <= i < successes(outcomes) implies outcomes[i] by {
            if i > 0 {
                assert(outcomes[i] == rest[i - 1]);
            }
        }
    }
}

/// One more outcome adds a success only behind successes.
proof fn lemma_successes_push(outcomes: Seq<bool>, last: bool)
    ensures
        successes(outcomes.push(last)) == if last && successes(outcomes) == outcomes.len() {
            outcomes.len() + 1
        } else {
            successes(outcomes)
        },
    decreases outcomes.len(),
{
    let all = outcomes.push(last);
    if outcomes.len() > 0 {
        assert(all.drop_first() == outcomes.drop_first().push(last));
        lemma_successes_push(outcomes.drop_first(), last);
    } else {
        assert(successes(all.drop_first()) == 0);
    }
}

/// The number of successes decides.
proof fn lemma_after_outcomes(outcomes: Seq<bool>)
    ensures
        after_outcomes(outcomes) == {
            let n = successes(outcomes);
            if n >= 7 {
                WriteAction::Done
            } else if n == outcomes.len() {
                WriteAction::Run(step_at(n as int))
            } else if n < 3 {
                WriteAction::Fail(step_at(n as int))
            } else {
                WriteAction::Discard(step_at(n as int))
            }
        },
    decreases outcomes.len(),
{
    if outcomes.len() > 0 {
        let rest = outcomes.drop_last();
        lemma_after_outcomes(rest);
        lemma_successes(rest);
        lemma_successes_push(rest, outcomes.last());
        assert(rest.push(outcomes.last()) == outcomes);
    }
}

/// Whether the piece of work at `n` is the first that failed.
pub open spec fn first_failure(outcomes: Seq<bool>, n: int) -> bool {
    0 <= n < outcomes.len() && !outcomes[n] && forall|i: int| 0 <= i < n ==> outcomes[i]
}

/// Whether the first `n` pieces of work succeeded.
pub open spec fn succeeded(outcomes: Seq<bool>, n: int) -> bool {
    n <= outcomes.len() && forall|i: int| 0 <= i < n ==> outcomes[i]
}

/// The target is touched only once the new contents are all in the temporary file and on the
/// disk.
pub proof fn law_target_is_touched_last(outcomes: Seq<bool>)
    ensures
        after_outcomes(outcomes) == WriteAction::Run(WriteStep::Rename) <==> outcomes.len() == 6
            && succeeded(outcomes, 6),
{
    lemma_after_outcomes(outcomes);
    lemma_successes(outcomes);
    if succeeded(outcomes, 6) && successes(outcomes) < 6 {
        assert(outcomes[successes(outcomes) as int]);
    }
}

/// How a replacement ends: it succeeds just where every piece of work did, the finding of the
/// target's directory and name among them, and fails with the first that did not. The temporary
/// file is removed just where that one came after the name was found.
pub proof fn law_replacement_ends(outcomes: Seq<bool>, n: int)
    ensures
        after_outcomes(outcomes) == WriteAction::Done <==> succeeded(outcomes, 7),
        0 <= n < 7 && first_failure(outcomes, n) ==> after_outcomes(outcomes) == if n < 3 {
            WriteAction::Fail(step_at(n))
        } else {
            WriteAction::Discard(step_at(n))
        },
        after_outcomes(outcomes) is Fail || after_outcomes(outcomes) is Discard <==> exists|k: int|
            0 <= k < 7 && first_failure(outcomes, k),
{
    lemma_after_outcomes(outcomes);
    lemma_successes(outcomes);
    let s = successes(outcomes) as int;
    if succeeded(outcomes, 7) && s < 7 {
        assert(outcomes[s]);
    }
    assert forall|k: int| first_failure(outcomes, k) implies k == s by {
        if s < k {
            assert(outcomes[s]);
        } else if k < s {
            assert(outcomes[k]);
        }
    }
    if s < outcomes.len() {
        assert(first_failure(outcomes, s));
    }
}

/// Decimal digits are digits, and tell their number.
proof fn lemma_decimal(m: nat, n: nat)
    ensures
        decimal(m).len() > 0,
        forall|i: int| 0 <= i < decimal(m).len() ==> '0' <= #[trigger] decimal(m)[i] <= '9',
        decimal(m) == decimal(n) ==> m == n,
    decreases m,
{
    if m >= 10 {
        lemma_decimal(m / 10, n / 10);
        assert(decimal(m).drop_last() == decimal(m / 10));
    }
    assert(decimal(m).last() == ('0' as int + m % 10) as char);
    assert(decimal(n).last() == ('0' as int + n % 10) as char);
    if decimal(m) == decimal(n) {
        assert(m % 10 == n % 10);
        if n >= 10 {
            lemma_decimal_len(n / 10);
            assert(decimal(n).drop_last() == decimal(n / 10));
            if m < 10 {
                assert(decimal(m).len() == 1);
                assert(false);
            }
        } else if m >= 10 {
            assert(decimal(n).len() == 1);
            assert(false);
        }
    }
}

/// Every number has a digit.
proof fn lemma_decimal_len(n: nat)
    ensures
        decimal(n).len() > 0,
{
}

/// The temporary file is never the target itself, and two replacements of one file, by different
/// processes or at different times, never share it.
pub proof fn law_temp_names(name: Seq<char>, pid: nat, timestamp: nat, pid2: nat, timestamp2: nat)
    ensures
        temp_name_of(name, pid, timestamp) != name,
        temp_name_of(name, pid, timestamp) == temp_name_of(name, pid2, timestamp2) ==> pid == pid2
            && timestamp == timestamp2,
{
    reveal_strlit(".");
    reveal_strlit(".tmp-");
    reveal_strlit("-");
    let head = "."@ + name + ".tmp-"@;
    let (p, p2) = (decimal(pid), decimal(pid2));
    let (t, t2) = (decimal(timestamp), decimal(timestamp2));
    let a = temp_name_of(name, pid, timestamp);
    let b = temp_name_of(name, pid2, timestamp2);
    let h = head.len() as int;
    assert(a.len() > name.len());
    lemma_decimal(pid, pid2);
    lemma_decimal(pid2, pid);
    lemma_decimal(timestamp, timestamp2);
    assert(a == head + p + "-"@ + t);
    assert(b == head + p2 + "-"@ + t2);
    if a == b {
        assert(a[h + p.len()] == '-');
        assert(b[h + p2.len()] == '-');
        if p.len() < p2.len() {
            assert(b[h + p.len()] == p2[p.len() as int]);
        } else if p2.len() < p.len() {
            assert(a[h + p2.len()] == p[p2.len() as int]);
        }
        assert(p == a.subrange(h, h + p.len()));
        assert(p2 == b.subrange(h, h + p2.len()));
        assert(t == a.skip(h + p.len() + 1));
        assert(t2 == b.skip(h + p2.len() + 1));
    }
}

/// The name of a temporary file is a name.
proof fn lemma_temp_name(name: Seq<char>, pid: nat, timestamp: nat)
    requires
        is_name(name),
    ensures
        is_name(temp_name_of(name, pid, timestamp)),
        temp_name_of(name, pid, timestamp)[0] == '.',
        temp_name_of(name, pid, timestamp) != name,
{
    reveal_strlit(".");
    reveal_strlit(".tmp-");
    reveal_strlit("-");
    let (p, t) = (decimal(pid), decimal(timestamp));
    let temp = temp_name_of(name, pid, timestamp);
    lemma_decimal(pid, pid);
    lemma_decimal(timestamp, timestamp);
    let parts = "."@ + name + ".tmp-"@ + p + "-"@;
    assert(temp == parts + t);
    assert forall|i: int| 0 <= i < temp.len() implies temp[i] != '/' by {
        let (a, b) = (1 + name.len() as int, 6 + name.len() as int);
        if 1 <= i < a {
            assert(temp[i] == name[i - 1]);
            assert(name.contains(name[i - 1]));
        } else if b <= i < b + p.len() {
            assert(temp[i] == p[i - b]);
        } else if b + p.len() < i {
            assert(temp[i] == t[i - b - p.len() - 1]);
        }
    }
}

/// The temporary file lies beside the target: in the same directory, under a hidden name of its
/// own. A target has one unless its path ends in no name.
pub proof fn law_temp_is_beside(path: Seq<char>, pid: nat, timestamp: nat)
    ensures
        temp_path_of(path, pid, timestamp) is None <==> file_name_of(path) is None,
        temp_path_of(path, pid, timestamp) matches Some(temp) ==> parent_of(temp) == parent_of(path)
            && file_name_of(temp) == Some(temp_name_of(file_name_of(path)->0, pid, timestamp))
            && file_name_of(temp)->0[0] == '.' && file_name_of(temp) != file_name_of(path) && temp
            != path,
{
    law_file_name(path);
    if let Some(name) = file_name_of(path) {
        lemma_temp_name(name, pid, timestamp);
        law_joined(path, temp_name_of(name, pid, timestamp));
    }
}

/// Numbers are written with the digits of their decimal places, without leading zeros.
pub proof fn law_decimal(n: nat, digit: nat)
    requires
        digit < 10,
    ensures
        decimal(digit).len() == 1,
        decimal(digit)[0] as int == '0' as int + digit,
        n > 0 ==> decimal(10 * n + digit) == decimal(n) + decimal(digit),
{
    if n > 0 {
        assert((10 * n + digit) / 10 == n);
        assert((10 * n + digit) % 10 == digit);
        assert(decimal(10 * n + digit) == decimal(n) + decimal(digit));
    }
}

/// The name of a temporary file, character by character but for the parts that vary.
pub proof fn law_temp_name(name: Seq<char>, pid: nat, timestamp: nat)
    ensures
        temp_name_of(name, pid, timestamp) == seq!['.'] + name + seq!['.', 't', 'm', 'p', '-']
            + decimal(pid) + seq!['-'] + decimal(timestamp),
        parent_of(name) is None || file_name_of(name) is None <==> temp_path_of(
            name,
            pid,
            timestamp,
        ) is None,
        temp_path_of(name, pid, timestamp) matches Some(temp) ==> temp == joined(
            parent_of(name)->0,
            temp_name_of(file_name_of(name)->0, pid, timestamp),
        ),
{
    reveal_strlit(".");
    reveal_strlit(".tmp-");
    reveal_strlit("-");
    assert("."@ == seq!['.']);
    assert(".tmp-"@ == seq!['.', 't', 'm', 'p', '-']);
    assert("-"@ == seq!['-']);
}

} // verus!
