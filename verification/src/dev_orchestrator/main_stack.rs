//! The main stack: the databases that every worktree's backend talks to.

use vstd::prelude::*;

use crate::dev_orchestrator::config::OrchestratorConfig;
use crate::text;

verus! {

/// How the main stack came to be up.
pub struct MainStackStatus {
    pub was_started: bool,
    /// How long that took, in milliseconds.
    pub waited_ms: u64,
}

/// How long it is waited for the stack's ports, in milliseconds.
pub const LIMIT_MS: u64 = 60_000;

/// What starting the stack came to.
pub enum ComposeOutcome {
    Success,
    /// Docker failed, or could not be run at all: what it said.
    Failed(String),
}

/// How far the stack is.
#[derive(Clone, Copy, PartialEq, Eq, Structural)]
pub enum Stage {
    /// It is being started, for the first time or again.
    Starting { again: bool },
    /// It is waited for.
    Waiting,
}

/// What is to be done next about the stack.
pub enum StackStep {
    Done(MainStackStatus),
    Failed(String),
    /// Start it.
    Start(Stage),
    /// Remove containers that are left over, and start it again.
    RemoveAndStart(Vec<String>, Stage),
    /// Look at the ports again in half a second.
    Wait(Stage),
}

/// Whether docker refused because a container's name is taken.
pub open spec fn is_conflict(stderr: Seq<char>) -> bool {
    text::contains(stderr, "already in use"@) || text::contains(stderr, "Conflict"@)
}

/// Whether all ports that must be bound are.
pub fn all_health_ports_bound(cfg: &OrchestratorConfig, bound: &[u16]) -> (r: bool)
    ensures
        r == (forall|i: int|
            0 <= i < cfg.main_stack_health_ports@.len() ==> bound@.contains(
                #[trigger] cfg.main_stack_health_ports@[i],
            )),
{
    let need = &cfg.main_stack_health_ports;
    let mut i: usize = 0;
    while i < need.len()
        invariant
            i <= need.len(),
            need@ == cfg.main_stack_health_ports@,
            forall|k: int| 0 <= k < i ==> bound@.contains(#[trigger] need@[k]),
        decreases need.len() - i,
    {
        let p: u16 = need[i];
        let mut j: usize = 0;
        let mut found: bool = false;
        while j < bound.len() && !found
            invariant
                j <= bound.len(),
                found ==> bound@.contains(p),
                !found ==> forall|k: int| 0 <= k < j ==> #[trigger] bound@[k] != p,
            decreases bound.len() - j + if found { 0int } else { 1int },
        {
            if bound[j] == p {
                found = true;
            } else {
                j = j + 1;
            }
        }
        if !found {
            assert(!bound@.contains(need@[i as int]));
            return false;
        }
        i = i + 1;
    }
    true
}

/// What is to be done about the stack to begin with.
pub fn ensure_running(cfg: &OrchestratorConfig, healthy: bool, dir_present: bool) -> (r: StackStep)
    ensures
        if healthy {
            r matches StackStep::Done(s) && !s.was_started && s.waited_ms == 0
        } else if !dir_present {
            r matches StackStep::Failed(e) && e@ == "main stack dir not found: "@
                + cfg.main_stack_dir@
        } else {
            r == StackStep::Start(Stage::Starting { again: false })
        },
{
    if healthy {
        return StackStep::Done(MainStackStatus { was_started: false, waited_ms: 0 });
    }
    if !dir_present {
        return StackStep::Failed(text::cat("main stack dir not found: ", &cfg.main_stack_dir));
    }
    StackStep::Start(Stage::Starting { again: false })
}

/// What follows once docker was told to start the stack. A name that is taken is
/// most often that of a container from an earlier run: those are removed, once.
pub fn after_start(cfg: &OrchestratorConfig, again: bool, outcome: ComposeOutcome) -> (r: StackStep)
    ensures
        match outcome {
            ComposeOutcome::Success => r == StackStep::Wait(Stage::Waiting),
            ComposeOutcome::Failed(stderr) => if !again && is_conflict(stderr@) {
                r matches StackStep::RemoveAndStart(names, stage) && text::views(names@)
                    == text::views(cfg.main_stack_orphan_container_names@) && stage
                    == (Stage::Starting { again: true })
            } else {
                r matches StackStep::Failed(e) && e@ == "docker compose up -d failed: "@ + stderr@
            },
        },
{
    let stderr = match outcome {
        ComposeOutcome::Success => {
            return StackStep::Wait(Stage::Waiting);
        },
        ComposeOutcome::Failed(e) => e,
    };
    if !again && (text::holds(&stderr, "already in use") || text::holds(&stderr, "Conflict")) {
        return StackStep::RemoveAndStart(
            text::copies(&cfg.main_stack_orphan_container_names),
            Stage::Starting { again: true },
        );
    }
    StackStep::Failed(text::cat("docker compose up -d failed: ", &stderr))
}

/// What docker said when it could not be run at all.
pub fn not_invoked(cause: &str) -> (r: ComposeOutcome)
    ensures
        r matches ComposeOutcome::Failed(e) && e@ == "docker invoke failed: "@ + cause@,
{
    ComposeOutcome::Failed(text::cat("docker invoke failed: ", cause))
}

/// What follows once the ports were looked at. `healthy` is not asked for once the
/// time is up.
pub fn after_wait(elapsed_ms: u64, healthy: bool) -> (r: StackStep)
    ensures
        if elapsed_ms >= LIMIT_MS {
            r matches StackStep::Failed(e) && e@ == "main stack didn't bind ports within 60s"@
        } else if healthy {
            r matches StackStep::Done(s) && s.was_started && s.waited_ms == elapsed_ms
        } else {
            r == StackStep::Wait(Stage::Waiting)
        },
{
    if elapsed_ms >= LIMIT_MS {
        StackStep::Failed("main stack didn't bind ports within 60s".to_owned())
    } else if healthy {
        StackStep::Done(MainStackStatus { was_started: true, waited_ms: elapsed_ms })
    } else {
        StackStep::Wait(Stage::Waiting)
    }
}

/// A start fails for a container of the same name where what was printed says so, by
/// either of two phrases, wherever they stand.
pub proof fn which_failures_are_conflicts(a: Seq<char>, b: Seq<char>, phrase: Seq<char>)
    ensures
        phrase == "already in use"@ || phrase == "Conflict"@ ==> is_conflict(a + phrase + b),
        is_conflict(a) ==> text::contains(a, "already in use"@) || text::contains(a, "Conflict"@),
{
    let s = a + phrase + b;
    let n = a.len() as int;
    assert(s.subrange(n, n + phrase.len()) =~= phrase);
    assert(text::occurs_at(s, phrase, n));
}

} // verus!
