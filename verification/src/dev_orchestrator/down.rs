//! Taking a worktree's dev servers down.

use vstd::prelude::*;

use crate::text;

verus! {

/// What taking a worktree's dev servers down came to.
pub struct TeardownReport {
    pub compose_down_ran: bool,
    pub killed_pids: Vec<u32>,
    pub override_removed: bool,
    pub warnings: Vec<String>,
}

/// What stopping the containers came to.
pub enum DownOutcome {
    Success,
    /// Docker failed: what it said.
    Failed(String),
    /// Docker could not be run: why.
    NotRun(String),
}

/// How long processes have to end on their own, in milliseconds.
pub const GRACE_MS: u64 = 3_000;

/// The processes that a worktree's frontend runs in: those whose command line
/// matches.
pub fn fe_pattern(fe_dir: &str) -> (r: String)
    ensures
        r@ == "rspack serve.*"@ + fe_dir@,
{
    text::cat("rspack serve.*", fe_dir)
}

/// The process ids in some lines.
pub open spec fn pids_in(lines: Seq<Seq<char>>) -> Seq<u32>
    decreases lines.len(),
{
    if lines.len() == 0 {
        seq![]
    } else {
        let before = pids_in(lines.drop_last());
        match text::parse_uint(text::trim(lines.last()), u32::MAX as nat) {
            Some(n) => before.push(n as u32),
            None => before,
        }
    }
}

/// The process ids that `pgrep` printed; none where it failed or did not run.
pub fn pgrep(out: Option<&str>) -> (r: Vec<u32>)
    ensures
        r@ == match out {
            Some(s) => pids_in(text::lines(s@)),
            None => seq![],
        },
{
    let s = match out {
        Some(s) => s,
        None => {
            return Vec::new();
        },
    };
    let lines = text::split_lines(s);
    let ghost all = text::lines(s@);
    let mut pids: Vec<u32> = Vec::new();
    let mut i: usize = 0;
    assert(pids@ =~= pids_in(all.take(0)));
    while i < lines.len()
        invariant
            i <= lines.len(),
            text::views(lines@) == all,
            pids@ == pids_in(all.take(i as int)),
        decreases lines.len() - i,
    {
        proof {
            assert(all.take(i + 1).drop_last() =~= all.take(i as int));
            assert(all.take(i + 1).last() == lines@[i as int]@);
        }
        if let Some(n) = text::parsed_uint(&text::trimmed(&lines[i]), u32::MAX as u64) {
            pids.push(n as u32);
        }
        i = i + 1;
    }
    assert(all.take(i as int) =~= all);
    pids
}

/// Those of the processes that took a signal.
pub open spec fn taken(signalled: Seq<(u32, bool)>) -> Seq<u32>
    decreases signalled.len(),
{
    if signalled.len() == 0 {
        seq![]
    } else {
        let before = taken(signalled.drop_last());
        if signalled.last().1 {
            before.push(signalled.last().0)
        } else {
            before
        }
    }
}

/// Whether processes that were told to end are given more time. Those that are left
/// afterwards are ended.
pub fn keep_waiting(any_left: bool, elapsed_ms: u64) -> (r: bool)
    ensures
        r == (any_left && elapsed_ms < GRACE_MS),
{
    any_left && elapsed_ms < GRACE_MS
}

/// What taking a worktree's dev servers down came to: what became of the containers,
/// which processes took the signal to end, and whether the override file was there
/// and is gone.
pub fn stop_worktree(down: DownOutcome, signalled: &[(u32, bool)], override_removed: bool) -> (r:
    TeardownReport)
    ensures
        r.compose_down_ran == (down is Success),
        r.killed_pids@ == taken(signalled@),
        r.override_removed == override_removed,
        text::views(r.warnings@) == match down {
            DownOutcome::Success => seq![],
            DownOutcome::Failed(stderr) => seq!["compose down: "@ + text::trim(stderr@)],
            DownOutcome::NotRun(cause) => seq!["docker invoke: "@ + cause@],
        },
{
    let mut warnings: Vec<String> = Vec::new();
    let compose_down_ran: bool = match &down {
        DownOutcome::Success => true,
        DownOutcome::Failed(stderr) => {
            warnings.push(text::cat("compose down: ", &text::trimmed(stderr)));
            false
        },
        DownOutcome::NotRun(cause) => {
            warnings.push(text::cat("docker invoke: ", cause));
            false
        },
    };
    proof {
        match down {
            DownOutcome::Success => {
                assert(text::views(warnings@) =~= seq![]);
            },
            DownOutcome::Failed(stderr) => {
                assert(text::views(warnings@) =~= seq!["compose down: "@ + text::trim(stderr@)]);
            },
            DownOutcome::NotRun(cause) => {
                assert(text::views(warnings@) =~= seq!["docker invoke: "@ + cause@]);
            },
        }
    }
    let mut killed_pids: Vec<u32> = Vec::new();
    let mut i: usize = 0;
    assert(killed_pids@ =~= taken(signalled@.take(0)));
    while i < signalled.len()
        invariant
            i <= signalled.len(),
            killed_pids@ == taken(signalled@.take(i as int)),
        decreases signalled.len() - i,
    {
        proof {
            assert(signalled@.take(i + 1).drop_last() =~= signalled@.take(i as int));
            assert(signalled@.take(i + 1).last() == signalled@[i as int]);
        }
        if signalled[i].1 {
            killed_pids.push(signalled[i].0);
        }
        i = i + 1;
    }
    assert(signalled@.take(i as int) =~= signalled@);
    TeardownReport { compose_down_ran, killed_pids, override_removed, warnings }
}

/// The processes that a list names are those of its lines that are a number, white space
/// aside; a line that is none is passed over.
pub proof fn a_list_names_processes(lines: Seq<Seq<char>>, pid: u32)
    ensures
        pids_in(lines).contains(pid) <==> exists|i: int|
            0 <= i < lines.len() && text::parse_uint(
                text::trim(#[trigger] lines[i]),
                u32::MAX as nat,
            ) == Some(pid as nat),
        pids_in(lines).len() <= lines.len(),
    decreases lines.len(),
{
    if lines.len() > 0 {
        let rest = lines.drop_last();
        a_list_names_processes(rest, pid);
        let before = pids_in(rest);
        let all = pids_in(lines);
        let last = text::parse_uint(text::trim(lines.last()), u32::MAX as nat);
        if before.contains(pid) {
            let k = choose|k: int| 0 <= k < before.len() && before[k] == pid;
            assert(all[k] == pid);
            let i = choose|i: int|
                0 <= i < rest.len() && text::parse_uint(
                    text::trim(#[trigger] rest[i]),
                    u32::MAX as nat,
                ) == Some(pid as nat);
            assert(lines[i] == rest[i]);
        }
        if let Some(n) = last {
            assert(all[before.len() as int] == n as u32);
            assert(lines[lines.len() - 1] == lines.last());
            if all.contains(pid) && pid != n as u32 {
                let k = choose|k: int| 0 <= k < all.len() && all[k] == pid;
                assert(before[k] == pid);
            }
        }
        if exists|i: int|
            0 <= i < lines.len() && text::parse_uint(
                text::trim(#[trigger] lines[i]),
                u32::MAX as nat,
            ) == Some(pid as nat) {
            let i = choose|i: int|
                0 <= i < lines.len() && text::parse_uint(
                    text::trim(#[trigger] lines[i]),
                    u32::MAX as nat,
                ) == Some(pid as nat);
            if i < rest.len() {
                assert(rest[i] == lines[i]);
            }
        }
    }
}

/// The processes that took a signal are those for which it went out, and no other.
pub proof fn who_took_a_signal(signalled: Seq<(u32, bool)>, pid: u32)
    ensures
        taken(signalled).contains(pid) <==> signalled.contains((pid, true)),
        taken(signalled).len() <= signalled.len(),
    decreases signalled.len(),
{
    if signalled.len() > 0 {
        let rest = signalled.drop_last();
        who_took_a_signal(rest, pid);
        let before = taken(rest);
        let all = taken(signalled);
        if rest.contains((pid, true)) {
            let i = choose|i: int| 0 <= i < rest.len() && rest[i] == (pid, true);
            assert(signalled[i] == (pid, true));
            let k = choose|k: int| 0 <= k < before.len() && before[k] == pid;
            assert(all[k] == pid);
        }
        if signalled.last().1 {
            assert(all[before.len() as int] == signalled.last().0);
            assert(signalled[signalled.len() - 1] == signalled.last());
            if all.contains(pid) && pid != signalled.last().0 {
                let k = choose|k: int| 0 <= k < all.len() && all[k] == pid;
                assert(before[k] == pid);
            }
        }
        if signalled.contains((pid, true)) {
            let i = choose|i: int| 0 <= i < signalled.len() && signalled[i] == (pid, true);
            if i < rest.len() {
                assert(rest[i] == (pid, true));
            } else {
                assert(all[before.len() as int] == pid);
            }
        }
    }
}

} // verus!
