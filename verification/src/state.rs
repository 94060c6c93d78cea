//! Host-side records: the permission preset captured when a turn starts,
//! and the plain session/workspace/preset/goal records the host keeps.
use vstd::prelude::*;

verus! {

/// Product-level permission bundle. Full access is one preset rather than a
/// loose pair of booleans so one explicit risk gate can stand in front of it.
#[derive(Clone, Copy, Debug, PartialEq, Eq, PartialOrd, Ord, Hash, Structural)]
pub enum PermissionPreset {
    WorkspaceWrite,
    DangerFullAccess,
}

impl Default for PermissionPreset {
    fn default() -> (r: Self)
        ensures
            r == PermissionPreset::WorkspaceWrite,
    {
        PermissionPreset::WorkspaceWrite
    }
}

/// The wire name of a preset.
pub open spec fn preset_text(p: PermissionPreset) -> Seq<char> {
    match p {
        PermissionPreset::WorkspaceWrite => "workspace-write"@,
        PermissionPreset::DangerFullAccess => "danger-full-access"@,
    }
}

pub open spec fn approval_text(p: PermissionPreset) -> Seq<char> {
    match p {
        PermissionPreset::WorkspaceWrite => "ask"@,
        PermissionPreset::DangerFullAccess => "never"@,
    }
}

/// The preset a wire name stands for, if any.
pub open spec fn parse_preset(value: Seq<char>) -> Option<PermissionPreset> {
    if value == "workspace-write"@ {
        Some(PermissionPreset::WorkspaceWrite)
    } else if value == "danger-full-access"@ {
        Some(PermissionPreset::DangerFullAccess)
    } else {
        None
    }
}

impl PermissionPreset {
    /// Every preset, in declaration order.
    pub fn all() -> (r: Vec<Self>)
        ensures
            r@ == seq![PermissionPreset::WorkspaceWrite, PermissionPreset::DangerFullAccess],
    {
        let mut v: Vec<Self> = Vec::new();
        v.push(PermissionPreset::WorkspaceWrite);
        v.push(PermissionPreset::DangerFullAccess);
        proof {
            assert(v@ =~= seq![PermissionPreset::WorkspaceWrite, PermissionPreset::DangerFullAccess]);
        }
        v
    }

    pub fn as_str(self) -> (r: &'static str)
        ensures
            r@ == preset_text(self),
    {
        match self {
            PermissionPreset::WorkspaceWrite => "workspace-write",
            PermissionPreset::DangerFullAccess => "danger-full-access",
        }
    }

    /// The sandbox mode a turn under this preset runs in.
    pub fn sandbox_mode(self) -> (r: &'static str)
        ensures
            r@ == preset_text(self),
    {
        match self {
            PermissionPreset::WorkspaceWrite => "workspace-write",
            PermissionPreset::DangerFullAccess => "danger-full-access",
        }
    }

    pub fn sandbox_enabled(self) -> (r: bool)
        ensures
            r == (self == PermissionPreset::WorkspaceWrite),
    {
        match self {
            PermissionPreset::WorkspaceWrite => true,
            PermissionPreset::DangerFullAccess => false,
        }
    }

    pub fn approval_policy(self) -> (r: &'static str)
        ensures
            r@ == approval_text(self),
    {
        match self {
            PermissionPreset::WorkspaceWrite => "ask",
            PermissionPreset::DangerFullAccess => "never",
        }
    }

    pub fn parse(value: &str) -> (r: Option<Self>)
        ensures
            r == parse_preset(value@),
    {
        if crate::text::str_eq(value, "workspace-write") {
            Some(PermissionPreset::WorkspaceWrite)
        } else if crate::text::str_eq(value, "danger-full-access") {
            Some(PermissionPreset::DangerFullAccess)
        } else {
            None
        }
    }
}

/// A preset's wire name parses back to the preset.
pub proof fn law_preset_names_round_trip(p: PermissionPreset)
    ensures
        parse_preset(preset_text(p)) == Some(p),
{
    reveal_strlit("workspace-write");
    reveal_strlit("danger-full-access");
    assert("danger-full-access"@[0] != "workspace-write"@[0]);
}

/// Provider/model chosen for a session.
#[derive(Clone, Debug)]
pub struct ModelSelection {
    pub provider: String,
    pub model: String,
    pub reasoning_effort: Option<String>,
}

impl ModelSelection {
    /// The selection a new session starts with: the configured provider and
    /// model, no reasoning effort.
    pub fn from_config(provider_id: &str, model_id: &str) -> (r: Self)
        ensures
            r.provider@ == provider_id@,
            r.model@ == model_id@,
            r.reasoning_effort is None,
    {
        ModelSelection {
            provider: String::from_str(provider_id),
            model: String::from_str(model_id),
            reasoning_effort: None,
        }
    }
}

#[derive(Clone, Debug)]
pub struct WorkspaceRecord {
    pub workspace_id: String,
    pub path: String,
    pub title: String,
    pub session_ids: Vec<String>,
    pub created_at: String,
    pub updated_at: String,
}

#[derive(Clone, Debug)]
pub struct AgentPreset {
    pub id: String,
    pub trust: String,
    pub is_default: bool,
    pub name: Option<String>,
    pub description: Option<String>,
    pub content: String,
}

impl AgentPreset {
    /// The system coding preset every host starts with, the default choice.
    pub fn coding() -> (r: Self)
        ensures
            r.id@ == "coding"@,
            r.trust@ == "system"@,
            r.is_default,
            r.name matches Some(n) && n@ == "Coding Agent"@,
            r.description matches Some(d) && d@ == "XHarness standard fourteen-tool coding agent"@,
            r.content@ == "You are a coding agent. Inspect the workspace, make precise changes, and verify your work."@,
    {
        AgentPreset {
            id: String::from_str("coding"),
            trust: String::from_str("system"),
            is_default: true,
            name: Some(String::from_str("Coding Agent")),
            description: Some(String::from_str("XHarness standard fourteen-tool coding agent")),
            content: String::from_str(
                "You are a coding agent. Inspect the workspace, make precise changes, and verify your work.",
            ),
        }
    }
}

#[derive(Clone, Debug)]
pub struct GoalState {
    pub id: String,
    pub revision: u64,
    pub objective: String,
    pub max_goal_rounds: Option<u64>,
    pub status: String,
}

} // verus!
