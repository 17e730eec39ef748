//! Supervising an agent from its birth: the command it runs, and what to do each
//! time it ends.
use vstd::prelude::*;

use crate::enforcer::KillReason;
use crate::policy::Policy;
use crate::text::{decimal, push_decimal, to_owned_string};

verus! {

broadcast use vstd::string::group_string_axioms;

/// What `watch` runs and under which policy.
pub struct WatchConfig {
    pub policy: Policy,
    pub command: Vec<String>,
    /// How many times the agent may be started again (none: never).
    pub max_restarts: Option<u32>,
}

/// The UTF-8 bytes of an argument.
pub open spec fn arg_bytes(s: Seq<char>) -> Seq<u8> {
    vstd::utf8::encode_utf8(s)
}

/// The position of the first zero byte, if any.
pub open spec fn first_nul(b: Seq<u8>) -> Option<int> {
    if exists|i: int| 0 <= i < b.len() && b[i] == 0 {
        Some(choose|i: int| 0 <= i < b.len() && b[i] == 0 && forall|j: int| 0 <= j < i ==> b[j] != 0)
    } else {
        None
    }
}

/// The first argument that holds a zero byte, with that byte's position.
pub open spec fn first_bad_arg(args: Seq<Seq<char>>) -> Option<(int, int)>
    decreases args.len(),
{
    if args.len() == 0 {
        None
    } else {
        match first_bad_arg(args.drop_last()) {
            Some(found) => Some(found),
            None => match first_nul(arg_bytes(args.last())) {
                Some(pos) => Some((args.len() - 1, pos)),
                None => None,
            },
        }
    }
}

/// The message for an argument with a zero byte (as std's `NulError` prints it).
pub open spec fn nul_message(idx: nat, pos: nat) -> Seq<char> {
    "argumento "@ + decimal(idx) + ": nul byte found in provided data at position: "@ + decimal(
        pos,
    )
}

proof fn lemma_first_nul(b: Seq<u8>, i: int)
    requires
        0 <= i <= b.len(),
        forall|j: int| 0 <= j < i ==> b[j] != 0,
        i == b.len() || b[i] == 0,
    ensures
        first_nul(b) == (if i == b.len() {
            None
        } else {
            Some(i)
        }),
{
    if i < b.len() {
        let k = choose|k: int| 0 <= k < b.len() && b[k] == 0 && forall|j: int| 0 <= j < k ==> b[j] != 0;
        assert(b[i] == 0);
        if k < i {
        } else if k > i {
            assert(b[i] != 0);
        }
    }
}

/// Checks the command line of the agent: it must not be empty, and no argument
/// may hold a zero byte (which no C string can carry). Gives the bytes of each
/// argument, or the index of the offending argument with a message.
pub fn parse_c_command(args: &[String]) -> (r: Result<Vec<Vec<u8>>, (usize, String)>)
    ensures
        args.len() == 0 ==> (r matches Err((idx, msg)) && idx == 0 && msg@
            == "comando não pode ser vazio"@),
        args.len() > 0 ==> match first_bad_arg(crate::policy::matcher::views(args@)) {
            Some((i, pos)) => r matches Err((idx, msg)) && idx == i && msg@ == nul_message(
                i as nat,
                pos as nat,
            ),
            None => r matches Ok(v) && v@.len() == args.len() && forall|k: int|
                0 <= k < args.len() ==> (#[trigger] v@[k])@ == arg_bytes(args@[k]@),
        },
{
    if args.len() == 0 {
        return Err((0, to_owned_string("comando não pode ser vazio")));
    }
    let ghost views = crate::policy::matcher::views(args@);
    let mut out: Vec<Vec<u8>> = Vec::new();
    let mut idx: usize = 0;
    assert(views.take(0) =~= Seq::<Seq<char>>::empty());
    while idx < args.len()
        invariant
            idx <= args.len(),
            views == crate::policy::matcher::views(args@),
            first_bad_arg(views.take(idx as int)) is None,
            out@.len() == idx,
            forall|k: int| 0 <= k < idx ==> (#[trigger] out@[k])@ == arg_bytes(args@[k]@),
        decreases args.len() - idx,
    {
        let b = args[idx].as_str().as_bytes();
        assert(b@ == arg_bytes(views[idx as int]));
        let mut pos: usize = 0;
        while pos < b.len() && b[pos] != 0
            invariant
                pos <= b.len(),
                forall|j: int| 0 <= j < pos ==> b@[j] != 0,
            decreases b.len() - pos,
        {
            pos = pos + 1;
        }
        proof {
            lemma_first_nul(b@, pos as int);
            assert(views.take(idx + 1).drop_last() =~= views.take(idx as int));
            assert(views.take(idx + 1).last() == views[idx as int]);
        }
        if pos < b.len() {
            let mut msg = to_owned_string("argumento ");
            push_decimal(&mut msg, idx as u64);
            msg.append(": nul byte found in provided data at position: ");
            push_decimal(&mut msg, pos as u64);
            proof {
                lemma_first_bad_prefix(views, idx as int + 1);
            }
            return Err((idx, msg));
        }
        let mut copy: Vec<u8> = Vec::new();
        let mut k: usize = 0;
        while k < b.len()
            invariant
                k <= b.len(),
                copy@ == b@.take(k as int),
            decreases b.len() - k,
        {
            copy.push(b[k]);
            k = k + 1;
            assert(copy@ =~= b@.take(k as int));
        }
        assert(b@.take(b.len() as int) =~= b@);
        out.push(copy);
        idx = idx + 1;
    }
    assert(views.take(args.len() as int) =~= views);
    Ok(out)
}

proof fn lemma_first_bad_prefix(args: Seq<Seq<char>>, n: int)
    requires
        0 <= n <= args.len(),
        first_bad_arg(args.take(n)) is Some,
    ensures
        first_bad_arg(args) == first_bad_arg(args.take(n)),
    decreases args.len() - n,
{
    if n < args.len() {
        assert(args.take(n + 1).drop_last() =~= args.take(n));
        lemma_first_bad_prefix(args, n + 1);
    } else {
        assert(args.take(n) =~= args);
    }
}

/// How a supervised child ended.
#[derive(Debug, Clone, Copy, PartialEq, Eq, Structural)]
pub enum ChildExit {
    /// Killed by a signal.
    Signaled,
    /// Exited with a status code.
    Exited(i32),
    /// Any other wait status (stopped, continued, ...).
    Other,
}

/// What the supervisor does next.
#[derive(Debug, Clone, Copy, PartialEq, Eq, Structural)]
pub enum WatchStep {
    /// The agent was killed for a policy violation: supervision stops and a human must
    /// step in.
    HaltPolicyViolation,
    /// The agent finished with status 0: supervision ends.
    FinishedCleanly,
    /// The agent ended badly and the restarts allowed are used up: supervision ends
    /// with an error.
    RestartsExhausted,
    /// The agent ended badly and no restart limit was given: supervision ends, without
    /// an error and without a restart.
    EndedWithoutRestart,
    /// The agent ended badly: start it again, after a pause.
    Restart,
    /// The child was not seen to end: start a new one at once.
    Respawn,
}

/// The decision after a child ended badly, given how many restarts were made: restart
/// while fewer than `max_restarts` were made; without `max_restarts`, never restart.
pub open spec fn crash_step(restart_count: u32, max_restarts: Option<u32>) -> WatchStep {
    match max_restarts {
        Some(m) => if restart_count >= m {
            WatchStep::RestartsExhausted
        } else {
            WatchStep::Restart
        },
        None => WatchStep::EndedWithoutRestart,
    }
}

/// The decision after a child ended, given why the enforcer killed it (if it did) and
/// how many restarts were made.
pub open spec fn step_after(
    exit: ChildExit,
    kill_reason: Option<KillReason>,
    restart_count: u32,
    max_restarts: Option<u32>,
) -> WatchStep {
    match exit {
        ChildExit::Signaled => if kill_reason == Some(KillReason::PolicyViolation) {
            WatchStep::HaltPolicyViolation
        } else {
            crash_step(restart_count, max_restarts)
        },
        ChildExit::Exited(code) => if code == 0 {
            WatchStep::FinishedCleanly
        } else {
            crash_step(restart_count, max_restarts)
        },
        ChildExit::Other => WatchStep::Respawn,
    }
}

/// The restart count after one more restart, wrapping at the top of `u32`.
pub open spec fn count_after(restart_count: u32) -> u32 {
    if restart_count == u32::MAX {
        0
    } else {
        (restart_count + 1) as u32
    }
}

fn crash_decision(restart_count: u32, max_restarts: Option<u32>) -> (r: WatchStep)
    ensures
        r == crash_step(restart_count, max_restarts),
{
    match max_restarts {
        Some(m) => if restart_count >= m {
            WatchStep::RestartsExhausted
        } else {
            WatchStep::Restart
        },
        None => WatchStep::EndedWithoutRestart,
    }
}

/// Decides what follows the end of a supervised child, and the restart count after
/// it (one more after a restart or a respawn, wrapping at the top of `u32`).
pub fn next_step(
    exit: ChildExit,
    kill_reason: Option<KillReason>,
    restart_count: u32,
    max_restarts: Option<u32>,
) -> (r: (WatchStep, u32))
    ensures
        r.0 == step_after(exit, kill_reason, restart_count, max_restarts),
        (r.0 == WatchStep::Restart || r.0 == WatchStep::Respawn) ==> r.1 == count_after(
            restart_count,
        ),
        !(r.0 == WatchStep::Restart || r.0 == WatchStep::Respawn) ==> r.1 == restart_count,
{
    let step = match exit {
        ChildExit::Signaled => {
            let violated = match kill_reason {
                Some(k) => {
                    assert(k == KillReason::PolicyViolation);
                    true
                },
                None => false,
            };
            if violated {
                WatchStep::HaltPolicyViolation
            } else {
                crash_decision(restart_count, max_restarts)
            }
        },
        ChildExit::Exited(code) => {
            if code == 0 {
                WatchStep::FinishedCleanly
            } else {
                crash_decision(restart_count, max_restarts)
            }
        },
        ChildExit::Other => WatchStep::Respawn,
    };
    match step {
        WatchStep::Restart | WatchStep::Respawn => (step, restart_count.wrapping_add(1)),
        _ => (step, restart_count),
    }
}

/// How many restarts a supervision makes when its children end as listed (each with
/// why the enforcer killed it, if it did), starting from `count` restarts.
pub open spec fn restarts_made(
    exits: Seq<(ChildExit, Option<KillReason>)>,
    count: u32,
    max_restarts: Option<u32>,
) -> nat
    decreases exits.len(),
{
    if exits.len() == 0 {
        0
    } else {
        match step_after(exits[0].0, exits[0].1, count, max_restarts) {
            WatchStep::Restart => 1 + restarts_made(
                exits.drop_first(),
                count_after(count),
                max_restarts,
            ),
            WatchStep::Respawn => restarts_made(exits.drop_first(), count_after(count), max_restarts),
            _ => 0,
        }
    }
}

/// A child killed for a policy violation is never started again: supervision halts.
pub proof fn law_violation_halts(restart_count: u32, max_restarts: Option<u32>)
    ensures
        step_after(ChildExit::Signaled, Some(KillReason::PolicyViolation), restart_count, max_restarts)
            == WatchStep::HaltPolicyViolation,
{
}

/// A child that exits with status 0 ends the supervision, whatever restarts remain.
pub proof fn law_clean_exit_finishes(
    kill_reason: Option<KillReason>,
    restart_count: u32,
    max_restarts: Option<u32>,
)
    ensures
        step_after(ChildExit::Exited(0), kill_reason, restart_count, max_restarts)
            == WatchStep::FinishedCleanly,
{
}

/// Without a restart limit, a child that ended badly (and was not killed for a
/// violation) is not started again: supervision ends without an error.
pub proof fn law_no_limit_no_restart(
    exit: ChildExit,
    kill_reason: Option<KillReason>,
    restart_count: u32,
)
    requires
        exit == ChildExit::Signaled || (exit matches ChildExit::Exited(code) && code != 0),
        kill_reason != Some(KillReason::PolicyViolation),
    ensures
        step_after(exit, kill_reason, restart_count, None) == WatchStep::EndedWithoutRestart,
{
}

/// With `max_restarts` = `m`, a child that ends badly after `m` restarts ends the
/// supervision with an error instead of being started again.
pub proof fn law_exhausted_restarts_end_in_error(
    exit: ChildExit,
    kill_reason: Option<KillReason>,
    restart_count: u32,
    m: u32,
)
    requires
        exit == ChildExit::Signaled || (exit matches ChildExit::Exited(code) && code != 0),
        kill_reason != Some(KillReason::PolicyViolation),
        restart_count >= m,
    ensures
        step_after(exit, kill_reason, restart_count, Some(m)) == WatchStep::RestartsExhausted,
{
}

/// Over any run of children that are each seen to end (by a signal or an exit), the
/// supervisor limited to `m` restarts restarts the agent at most `m` times in all,
/// counting the restarts already made.
pub proof fn law_restarts_bounded(
    exits: Seq<(ChildExit, Option<KillReason>)>,
    count: u32,
    m: u32,
)
    requires
        forall|k: int| 0 <= k < exits.len() ==> (#[trigger] exits[k]).0 != ChildExit::Other,
    ensures
        count + restarts_made(exits, count, Some(m)) <= if count >= m {
            count as int
        } else {
            m as int
        },
    decreases exits.len(),
{
    if exits.len() > 0 {
        assert(exits[0].0 != ChildExit::Other);
        let s = step_after(exits[0].0, exits[0].1, count, Some(m));
        if s == WatchStep::Restart {
            let rest = exits.drop_first();
            assert forall|k: int| 0 <= k < rest.len() implies (#[trigger] rest[k]).0
                != ChildExit::Other by {
                assert(rest[k] == exits[k + 1]);
            }
            law_restarts_bounded(rest, count_after(count), m);
        }
    }
}

/// A child that ended badly, and was not killed for a policy violation.
pub open spec fn crashed(e: (ChildExit, Option<KillReason>)) -> bool {
    &&& e.1 != Some(KillReason::PolicyViolation)
    &&& (e.0 == ChildExit::Signaled || (e.0 matches ChildExit::Exited(code) && code != 0))
}

/// With `max_restarts` = `m`, children that keep ending badly are restarted exactly
/// `m` times in all (counting those already made): the next one ends the supervision
/// with an error.
pub proof fn law_crashes_use_up_the_restarts(
    exits: Seq<(ChildExit, Option<KillReason>)>,
    count: u32,
    m: u32,
)
    requires
        count <= m,
        exits.len() > m - count,
        forall|k: int| 0 <= k < exits.len() ==> crashed(#[trigger] exits[k]),
    ensures
        count + restarts_made(exits, count, Some(m)) == m,
        step_after(exits[m - count].0, exits[m - count].1, m, Some(m))
            == WatchStep::RestartsExhausted,
    decreases exits.len(),
{
    assert(crashed(exits[0]));
    assert(crashed(exits[m - count]));
    if count < m {
        let rest = exits.drop_first();
        assert forall|k: int| 0 <= k < rest.len() implies crashed(#[trigger] rest[k]) by {
            assert(rest[k] == exits[k + 1]);
        }
        law_crashes_use_up_the_restarts(rest, (count + 1) as u32, m);
        assert(rest[m - (count + 1)] == exits[m - count]);
    }
}

} // verus!
