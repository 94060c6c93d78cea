//! Decisions of session creation: which directory a new session runs in,
//! whether the request repeats or conflicts with an existing session, and
//! how the new session is listed in its workspace.
use vstd::prelude::*;
use crate::state::WorkspaceRecord;
use crate::text::{owned, strs_view};
use crate::workspaces::{
    copy_record, find_str, find_ws_id, index_of, lemma_index_of, ws_ids, ws_lookup, ws_views, WorkspaceView,
};

verus! {

/// Why a session cannot be created as asked.
#[derive(Clone, Debug, PartialEq, Eq)]
pub enum CreateError {
    /// The request names both a workspace and a directory.
    BothTargets,
    PresetNotFound { preset: String },
    WorkspaceNotFound { workspace_id: String },
}

pub enum CreateErrorView {
    BothTargets,
    PresetNotFound(Seq<char>),
    WorkspaceNotFound(Seq<char>),
}

impl View for CreateError {
    type V = CreateErrorView;

    open spec fn view(&self) -> CreateErrorView {
        match self {
            CreateError::BothTargets => CreateErrorView::BothTargets,
            CreateError::PresetNotFound { preset } => CreateErrorView::PresetNotFound(preset@),
            CreateError::WorkspaceNotFound { workspace_id } => CreateErrorView::WorkspaceNotFound(workspace_id@),
        }
    }
}

pub open spec fn opt_text(o: Option<&str>) -> Option<Seq<char>> {
    match o {
        Some(s) => Some(s@),
        None => None,
    }
}

/// The directory a new session is created in, before it is made canonical:
/// the named workspace's path, else the given directory, else the host's.
/// Naming both a workspace and a directory, an unknown preset or an unknown
/// workspace is refused, checked in that order.
pub open spec fn create_target_spec(
    both: bool,
    preset: Option<Seq<char>>,
    presets: Seq<Seq<char>>,
    workspace_id: Option<Seq<char>>,
    ws: Seq<WorkspaceView>,
    cwd: Option<Seq<char>>,
    default_cwd: Seq<char>,
) -> Result<Seq<char>, CreateErrorView> {
    if both {
        Err(CreateErrorView::BothTargets)
    } else if preset is Some && !presets.contains(preset->0) {
        Err(CreateErrorView::PresetNotFound(preset->0))
    } else {
        match workspace_id {
            Some(id) => match ws_lookup(ws, id) {
                Some(w) => Ok(w.path),
                None => Err(CreateErrorView::WorkspaceNotFound(id)),
            },
            None => match cwd {
                Some(c) => Ok(c),
                None => Ok(default_cwd),
            },
        }
    }
}

/// Where a session to be created runs. `both` says whether the request
/// names a workspace and a directory together; `presets` are the known
/// agent preset ids.
pub fn create_target(
    both: bool,
    preset: Option<&str>,
    presets: &Vec<String>,
    workspace_id: Option<&str>,
    workspaces: &Vec<WorkspaceRecord>,
    cwd: Option<&str>,
    default_cwd: &str,
) -> (r: Result<String, CreateError>)
    ensures
        (match r {
            Ok(p) => Ok::<Seq<char>, CreateErrorView>(p@),
            Err(e) => Err(e@),
        }) == create_target_spec(both, opt_text(preset), strs_view(presets@), opt_text(workspace_id), ws_views(workspaces@), opt_text(cwd), default_cwd@),
{
    if both {
        return Err(CreateError::BothTargets);
    }
    match preset {
        Some(p) => {
            proof {
                lemma_index_of(strs_view(presets@), p@);
            }
            match find_str(presets, p) {
                Some(i) => {
                    assert(strs_view(presets@)[i as int] == p@);
                },
                None => {
                    return Err(CreateError::PresetNotFound { preset: owned(p) });
                },
            }
        },
        None => {},
    }
    match workspace_id {
        Some(id) => match find_ws_id(workspaces, id) {
            Some(i) => Ok(owned(workspaces[i].path.as_str())),
            None => Err(CreateError::WorkspaceNotFound { workspace_id: owned(id) }),
        },
        None => match cwd {
            Some(c) => Ok(owned(c)),
            None => Ok(owned(default_cwd)),
        },
    }
}

/// How a create request that reached its directory ends.
#[derive(Clone, Debug, PartialEq, Eq)]
pub enum CreateOutcome {
    /// The session already exists in that directory: answer with its preset.
    Existing { agent_preset: Option<String> },
    /// A new session, with the requested preset or the host's default.
    New { agent_preset: String },
}

/// The session id is taken by a session in another directory.
#[derive(Clone, Debug, PartialEq, Eq)]
pub struct SessionConflict {
    pub session_id: String,
    pub requested_cwd: String,
    pub existing_cwd: String,
}

/// Settle a create request for `session_id` in directory `cwd`, given the
/// directory and preset of a session already under that id.
pub fn create_outcome(
    session_id: String,
    cwd: String,
    existing: Option<(String, Option<String>)>,
    preset: Option<String>,
    default_preset: String,
) -> (r: Result<CreateOutcome, SessionConflict>)
    ensures
        match existing {
            Some((existing_cwd, existing_preset)) => if existing_cwd@ != cwd@ {
                r == Err::<CreateOutcome, SessionConflict>(SessionConflict { session_id, requested_cwd: cwd, existing_cwd })
            } else {
                r == Ok::<CreateOutcome, SessionConflict>(CreateOutcome::Existing { agent_preset: existing_preset })
            },
            None => r == Ok::<CreateOutcome, SessionConflict>(CreateOutcome::New {
                agent_preset: match preset {
                    Some(p) => p,
                    None => default_preset,
                },
            }),
        },
{
    match existing {
        Some((existing_cwd, existing_preset)) => {
            if existing_cwd != cwd {
                Err(SessionConflict { session_id, requested_cwd: cwd, existing_cwd })
            } else {
                Ok(CreateOutcome::Existing { agent_preset: existing_preset })
            }
        },
        None => Ok(CreateOutcome::New {
            agent_preset: match preset {
                Some(p) => p,
                None => default_preset,
            },
        }),
    }
}

/// The workspace after a new session `sid` is listed in it at time `t`:
/// first, unless it is listed already.
pub open spec fn created_listed(w: WorkspaceView, sid: Seq<char>, t: Seq<char>) -> WorkspaceView {
    if w.session_ids.contains(sid) {
        w
    } else {
        WorkspaceView { session_ids: seq![sid] + w.session_ids, updated_at: t, ..w }
    }
}

/// List a newly created session first in the workspace it was created in,
/// stamped `now`, unless it is listed there already; the answer is that
/// workspace's index, if it exists.
pub fn list_created(workspaces: &mut Vec<WorkspaceRecord>, workspace_id: &str, session_id: &str, now: String) -> (r: Option<usize>)
    ensures
        match r {
            Some(i) => {
                &&& index_of(ws_ids(ws_views(old(workspaces)@)), workspace_id@) == i
                &&& ws_views(final(workspaces)@) == ws_views(old(workspaces)@).update(
                    i as int,
                    created_listed(ws_views(old(workspaces)@)[i as int], session_id@, now@),
                )
            },
            None => {
                &&& index_of(ws_ids(ws_views(old(workspaces)@)), workspace_id@) < 0
                &&& final(workspaces)@ == old(workspaces)@
            },
        },
{
    let ghost ws0 = ws_views(workspaces@);
    match find_ws_id(workspaces, workspace_id) {
        None => None,
        Some(i) => {
            proof {
                lemma_index_of(strs_view(workspaces@[i as int].session_ids@), session_id@);
            }
            match find_str(&workspaces[i].session_ids, session_id) {
                Some(k) => {
                    assert(ws0[i as int].session_ids[k as int] == session_id@);
                    assert(ws0[i as int].session_ids.contains(session_id@));
                    assert(ws0.update(i as int, ws0[i as int]) =~= ws0);
                },
                None => {
                    let mut w = copy_record(&workspaces[i]);
                    let ghost before = strs_view(w.session_ids@);
                    w.session_ids.insert(0, owned(session_id));
                    assert(strs_view(w.session_ids@) =~= seq![session_id@] + before);
                    w.updated_at = now;
                    let ghost nw = w@;
                    workspaces.set(i, w);
                    assert(ws_views(workspaces@) =~= ws0.update(i as int, nw));
                },
            }
            Some(i)
        },
    }
}

/// Naming both a workspace and a directory is always refused first; a
/// known preset and a known workspace give that workspace's path; without
/// a workspace the given directory wins over the host's.
pub proof fn law_create_targets(
    preset: Option<Seq<char>>,
    presets: Seq<Seq<char>>,
    workspace_id: Option<Seq<char>>,
    ws: Seq<WorkspaceView>,
    cwd: Option<Seq<char>>,
    default_cwd: Seq<char>,
    i: int,
)
    ensures
        create_target_spec(true, preset, presets, workspace_id, ws, cwd, default_cwd) == Err::<Seq<char>, CreateErrorView>(CreateErrorView::BothTargets),
        (preset is None || presets.contains(preset->0)) && workspace_id is None ==>
            create_target_spec(false, preset, presets, workspace_id, ws, cwd, default_cwd) == Ok::<Seq<char>, CreateErrorView>(
                if cwd is Some { cwd->0 } else { default_cwd }),
        (preset is None || presets.contains(preset->0)) && 0 <= i < ws.len() && workspace_id == Some(ws[i].workspace_id)
            && (forall|j: int| 0 <= j < i ==> (#[trigger] ws[j]).workspace_id != ws[i].workspace_id) ==>
            create_target_spec(false, preset, presets, workspace_id, ws, cwd, default_cwd) == Ok::<Seq<char>, CreateErrorView>(ws[i].path),
        preset is Some && !presets.contains(preset->0) ==>
            create_target_spec(false, preset, presets, workspace_id, ws, cwd, default_cwd) == Err::<Seq<char>, CreateErrorView>(CreateErrorView::PresetNotFound(preset->0)),
{
    if 0 <= i < ws.len() {
        let ids = ws_ids(ws);
        lemma_index_of(ids, ws[i].workspace_id);
        assert(ids[i] == ws[i].workspace_id);
        if forall|j: int| 0 <= j < i ==> (#[trigger] ws[j]).workspace_id != ws[i].workspace_id {
            assert(index_of(ids, ws[i].workspace_id) == i) by {
                let m = index_of(ids, ws[i].workspace_id);
                if m >= 0 && m < i {
                    assert(ids[m] == ws[m].workspace_id);
                }
            }
        }
    }
}

} // verus!
