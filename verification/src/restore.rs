//! What a host startup replay reports, and the turn coordinates replay
//! shares with live continuation.
use vstd::prelude::*;
use crate::models::AgentResumeReport;

verus! {

/// A non-fatal startup condition: the session stays visible even when its
/// pending agent cannot be resumed now.
#[derive(Clone, Debug, PartialEq, Eq)]
pub struct HostRestoreIssue {
    pub session_id: String,
    pub message: String,
}

/// Summary of one host startup replay.
#[derive(Clone, Debug, PartialEq, Eq)]
pub struct HostRestoreReport {
    pub discovered_sessions: usize,
    pub restored_sessions: usize,
    pub resumed_pending_turns: usize,
    pub resumed_pending_approvals: usize,
    pub waiting_next_step_inputs: usize,
    pub issues: Vec<HostRestoreIssue>,
}

impl Default for HostRestoreReport {
    fn default() -> (r: Self)
        ensures
            r.discovered_sessions == 0,
            r.restored_sessions == 0,
            r.resumed_pending_turns == 0,
            r.resumed_pending_approvals == 0,
            r.waiting_next_step_inputs == 0,
            r.issues@.len() == 0,
    {
        HostRestoreReport {
            discovered_sessions: 0,
            restored_sessions: 0,
            resumed_pending_turns: 0,
            resumed_pending_approvals: 0,
            waiting_next_step_inputs: 0,
            issues: Vec::new(),
        }
    }
}

/// Durable loop turns count from one, the web surface from zero.
pub fn web_turn(turn: u32) -> (r: u32)
    ensures
        r == if turn == 0 { 0 } else { turn - 1 },
{
    turn.saturating_sub(1)
}

/// The native platform family the host runs on.
#[derive(Clone, Copy, Debug, PartialEq, Eq, Structural)]
pub enum PlatformKind {
    MacOS,
    Linux,
}

/// What startup does with a session once its agent answered the resume.
#[derive(Clone, Debug, PartialEq, Eq)]
pub enum ResumeStep {
    /// Drive the recovered approval turn, found under this work id.
    DriveRecovered { work_id: String },
    /// Drive the session's pending turns.
    DriveSession,
    /// Leave the session idle; an issue says why.
    Skip,
}

/// The runtime attached a different number of turns than the projection
/// holds: startup stops.
#[derive(Clone, Debug, PartialEq, Eq)]
pub struct ResumeMismatch {
    pub session_id: String,
    pub runtime_count: usize,
    pub projected_count: usize,
}

/// The issue recorded when a pending approval was not reattached.
pub open spec fn approval_not_attached() -> Seq<char> {
    "runtime did not attach the durable pending approval"@
}

impl HostRestoreReport {
    /// Count one restored session and its waiting next-step inputs; the
    /// answer says whether its agent must be resumed (it has queued turns or
    /// pending approvals).
    pub fn record_restored(&mut self, next_step_inputs: usize, queued_turns: usize, pending_approvals: usize) -> (resume: bool)
        requires
            old(self).restored_sessions < usize::MAX,
            old(self).waiting_next_step_inputs + next_step_inputs <= usize::MAX,
        ensures
            resume == (queued_turns > 0 || pending_approvals > 0),
            final(self).restored_sessions == old(self).restored_sessions + 1,
            final(self).waiting_next_step_inputs == old(self).waiting_next_step_inputs + next_step_inputs,
            final(self).discovered_sessions == old(self).discovered_sessions,
            final(self).resumed_pending_turns == old(self).resumed_pending_turns,
            final(self).resumed_pending_approvals == old(self).resumed_pending_approvals,
            final(self).issues@ == old(self).issues@,
    {
        self.restored_sessions = self.restored_sessions + 1;
        self.waiting_next_step_inputs = self.waiting_next_step_inputs + next_step_inputs;
        queued_turns > 0 || pending_approvals > 0
    }

    /// Account for the agent's answer to resuming session `session_id`,
    /// whose projection holds `projected_turns` queued turns and
    /// `projected_approvals` pending approvals, and say what to do next. A
    /// refused resume and an approval the runtime did not reattach become
    /// issues; a turn count that disagrees with the projection is fatal and
    /// leaves the report as it was.
    pub fn record_resume(
        &mut self,
        session_id: String,
        projected_turns: usize,
        projected_approvals: usize,
        outcome: Result<AgentResumeReport, String>,
    ) -> (r: Result<ResumeStep, ResumeMismatch>)
        requires
            old(self).resumed_pending_turns + projected_turns <= usize::MAX,
            old(self).resumed_pending_approvals + projected_approvals <= usize::MAX,
        ensures
            final(self).discovered_sessions == old(self).discovered_sessions,
            final(self).restored_sessions == old(self).restored_sessions,
            final(self).waiting_next_step_inputs == old(self).waiting_next_step_inputs,
            match outcome {
                Err(message) => {
                    &&& r == Ok::<ResumeStep, ResumeMismatch>(ResumeStep::Skip)
                    &&& final(self).issues@ == old(self).issues@.push(HostRestoreIssue { session_id, message })
                    &&& final(self).resumed_pending_turns == old(self).resumed_pending_turns
                    &&& final(self).resumed_pending_approvals == old(self).resumed_pending_approvals
                },
                Ok(report) => if report.pending_turns != projected_turns {
                    &&& r == Err::<ResumeStep, ResumeMismatch>(ResumeMismatch {
                        session_id,
                        runtime_count: report.pending_turns,
                        projected_count: projected_turns,
                    })
                    &&& final(self).issues@ == old(self).issues@
                    &&& final(self).resumed_pending_turns == old(self).resumed_pending_turns
                    &&& final(self).resumed_pending_approvals == old(self).resumed_pending_approvals
                } else {
                    &&& final(self).resumed_pending_turns == old(self).resumed_pending_turns + projected_turns
                    &&& match report.recovered_approval_work_id {
                        Some(work_id) => {
                            &&& r == Ok::<ResumeStep, ResumeMismatch>(ResumeStep::DriveRecovered { work_id })
                            &&& final(self).resumed_pending_approvals == old(self).resumed_pending_approvals + projected_approvals
                            &&& final(self).issues@ == old(self).issues@
                        },
                        None => {
                            &&& final(self).resumed_pending_approvals == old(self).resumed_pending_approvals
                            &&& if projected_approvals > 0 {
                                &&& r == Ok::<ResumeStep, ResumeMismatch>(ResumeStep::Skip)
                                &&& final(self).issues@.len() == old(self).issues@.len() + 1
                                &&& final(self).issues@.drop_last() == old(self).issues@
                                &&& final(self).issues@.last().session_id == session_id
                                &&& final(self).issues@.last().message@ == approval_not_attached()
                            } else {
                                &&& r == Ok::<ResumeStep, ResumeMismatch>(ResumeStep::DriveSession)
                                &&& final(self).issues@ == old(self).issues@
                            }
                        },
                    }
                },
            },
    {
        match outcome {
            Err(message) => {
                self.issues.push(HostRestoreIssue { session_id, message });
                Ok(ResumeStep::Skip)
            },
            Ok(report) => {
                if report.pending_turns != projected_turns {
                    return Err(ResumeMismatch {
                        session_id,
                        runtime_count: report.pending_turns,
                        projected_count: projected_turns,
                    });
                }
                self.resumed_pending_turns = self.resumed_pending_turns + report.pending_turns;
                match report.recovered_approval_work_id {
                    Some(work_id) => {
                        self.resumed_pending_approvals = self.resumed_pending_approvals + projected_approvals;
                        Ok(ResumeStep::DriveRecovered { work_id })
                    },
                    None => {
                        if projected_approvals > 0 {
                            self.issues.push(HostRestoreIssue {
                                session_id,
                                message: String::from_str("runtime did not attach the durable pending approval"),
                            });
                            Ok(ResumeStep::Skip)
                        } else {
                            Ok(ResumeStep::DriveSession)
                        }
                    },
                }
            },
        }
    }
}

} // verus!
