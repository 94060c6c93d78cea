//! The exploration guard of a turn whose question was deferred: once a
//! deferral is seen the turn is latched read-only, and only scoped reads and
//! goal inspection or progress reports run.
use vstd::prelude::*;
use crate::text::str_eq;

verus! {

/// What the guard decides for one tool call.
#[derive(Clone, Debug, PartialEq, Eq)]
pub enum GuardDecision {
    Allow,
    Deny { reason: String },
}

/// The latch after one evaluation. A turn that never restricted and whose
/// session has no deferred question stays open; otherwise it is restricted
/// once it was, or when a question of this turn is deferred or a deferred
/// question is still unanswered.
pub open spec fn restricted_after(restricted: bool, any_deferred: bool, deferral_pending: bool) -> bool {
    if !restricted && !any_deferred {
        false
    } else {
        restricted || deferral_pending
    }
}

/// The calls a restricted turn may still make: scoped reads, reading the
/// goal, and reporting progress or a blocker on it.
pub open spec fn read_only_call(tool: Seq<char>, action: Option<Seq<char>>, report_status: Option<Seq<char>>) -> bool {
    ||| tool == "read"@
    ||| tool == "glob"@
    ||| tool == "grep"@
    ||| tool == "read_image"@
    ||| (tool == "goal"@ && action == Some("get"@))
    ||| (tool == "goal"@ && action == Some("report"@) && (report_status == Some("progress"@) || report_status == Some("blocked"@)))
}

/// Why a restricted turn's call is refused.
pub open spec fn deferral_denial() -> Seq<char> {
    "An unanswered question has deferred this turn. Only scoped read/glob/grep/read_image and goal get are allowed. No Bash, writes, network fetches, jobs, subagents, scheduling or repeated questions. Investigate independently or finish and wait; do not assume consent."@
}

pub open spec fn opt_str_view(o: Option<&str>) -> Option<Seq<char>> {
    match o {
        Some(s) => Some(s@),
        None => None,
    }
}

fn opt_is(o: Option<&str>, want: &str) -> (r: bool)
    ensures
        r == (opt_str_view(o) == Some(want@)),
{
    match o {
        Some(s) => str_eq(s, want),
        None => false,
    }
}

/// One evaluation of the guard: the new latch and the decision. `restricted`
/// is the latch so far, `any_deferred` whether the session holds any
/// deferred question, `deferral_pending` whether a question of the current
/// turn is deferred or a deferred question is unanswered; `tool`, `action`
/// and `report_status` describe the call.
pub fn guard_step(
    restricted: bool,
    any_deferred: bool,
    deferral_pending: bool,
    tool: &str,
    action: Option<&str>,
    report_status: Option<&str>,
) -> (r: (bool, GuardDecision))
    ensures
        r.0 == restricted_after(restricted, any_deferred, deferral_pending),
        !r.0 || read_only_call(tool@, opt_str_view(action), opt_str_view(report_status)) ==> r.1 == GuardDecision::Allow,
        r.0 && !read_only_call(tool@, opt_str_view(action), opt_str_view(report_status)) ==> (r.1 matches GuardDecision::Deny { reason } && reason@ == deferral_denial()),
{
    if !restricted && !any_deferred {
        return (false, GuardDecision::Allow);
    }
    let latched = restricted || deferral_pending;
    if !latched {
        return (false, GuardDecision::Allow);
    }
    let goal = str_eq(tool, "goal");
    let allowed = str_eq(tool, "read") || str_eq(tool, "glob") || str_eq(tool, "grep") || str_eq(tool, "read_image")
        || (goal && opt_is(action, "get"))
        || (goal && opt_is(action, "report") && (opt_is(report_status, "progress") || opt_is(report_status, "blocked")));
    if allowed {
        (true, GuardDecision::Allow)
    } else {
        (true, GuardDecision::Deny {
            reason: String::from_str("An unanswered question has deferred this turn. Only scoped read/glob/grep/read_image and goal get are allowed. No Bash, writes, network fetches, jobs, subagents, scheduling or repeated questions. Investigate independently or finish and wait; do not assume consent."),
        })
    }
}

/// The latch never resets within a turn, and a restricted turn refuses
/// every call that is not read-only.
pub proof fn law_restriction_never_resets(restricted: bool, any_deferred: bool, deferral_pending: bool)
    ensures
        restricted ==> restricted_after(restricted, any_deferred, deferral_pending),
        restricted_after(restricted, any_deferred, deferral_pending)
            ==> restricted_after(restricted_after(restricted, any_deferred, deferral_pending), any_deferred, deferral_pending),
        !any_deferred && !restricted ==> !restricted_after(restricted, any_deferred, deferral_pending),
{
}

/// A turn is never restricted before a deferral is seen; once restricted
/// it stays so and lets only the scoped reads, goal reading and goal
/// progress or blocker reports through.
pub proof fn law_restricted_turns_are_read_only(restricted: bool, any_deferred: bool, deferral_pending: bool, action: Option<Seq<char>>, status: Option<Seq<char>>)
    ensures
        !restricted && !any_deferred ==> !restricted_after(restricted, any_deferred, deferral_pending),
        !restricted && any_deferred ==> (restricted_after(restricted, any_deferred, deferral_pending) == deferral_pending),
        read_only_call("read"@, action, status),
        read_only_call("glob"@, action, status),
        read_only_call("grep"@, action, status),
        read_only_call("read_image"@, action, status),
        read_only_call("goal"@, Some("get"@), status),
        read_only_call("goal"@, Some("report"@), Some("progress"@)),
        read_only_call("goal"@, Some("report"@), Some("blocked"@)),
        !read_only_call("bash"@, action, status),
        !read_only_call("goal"@, Some("report"@), Some("done"@)),
        !read_only_call("goal"@, Some("set"@), status),
{
    reveal_strlit("bash");
    reveal_strlit("read");
    reveal_strlit("glob");
    reveal_strlit("grep");
    reveal_strlit("read_image");
    reveal_strlit("goal");
    reveal_strlit("get");
    reveal_strlit("set");
    reveal_strlit("report");
    reveal_strlit("done");
    reveal_strlit("progress");
    reveal_strlit("blocked");
    assert("bash"@ != "read"@ && "bash"@ != "glob"@ && "bash"@ != "grep"@ && "bash"@ != "goal"@) by {
        assert("bash"@[0] != "read"@[0] && "bash"@[1] != "glob"@[1] && "bash"@[0] != "grep"@[0] && "bash"@[0] != "goal"@[0]);
    }
    assert("bash"@.len() != "read_image"@.len());
    assert("set"@.len() != "get"@.len() || "set"@[0] != "get"@[0]);
    assert("set"@.len() != "report"@.len());
    assert("done"@.len() != "progress"@.len() && "done"@.len() != "blocked"@.len());
    assert("goal"@[1] != "glob"@[1] && "goal"@[1] != "grep"@[1] && "goal"@[0] != "read"@[0]);
    assert("goal"@.len() != "read_image"@.len());
    assert("report"@.len() != "get"@.len());
}

} // verus!
