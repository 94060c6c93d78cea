//! Workspace decisions over a read snapshot: which durable control events
//! to commit, what to answer, and which host events to publish once the
//! commit is durable. Nothing here touches the store.
use vstd::prelude::*;
use crate::jobs::{remove_all, str_lt, str_less};
use crate::state::WorkspaceRecord;
use crate::text::{owned, str_eq, strs_view, copy_strs, dec, decimal, push_char};

verus! {

pub struct WorkspaceView {
    pub workspace_id: Seq<char>,
    pub path: Seq<char>,
    pub title: Seq<char>,
    pub session_ids: Seq<Seq<char>>,
    pub created_at: Seq<char>,
    pub updated_at: Seq<char>,
}

impl View for WorkspaceRecord {
    type V = WorkspaceView;

    open spec fn view(&self) -> WorkspaceView {
        WorkspaceView {
            workspace_id: self.workspace_id@,
            path: self.path@,
            title: self.title@,
            session_ids: strs_view(self.session_ids@),
            created_at: self.created_at@,
            updated_at: self.updated_at@,
        }
    }
}

pub open spec fn ws_views(v: Seq<WorkspaceRecord>) -> Seq<WorkspaceView> {
    v.map_values(|w: WorkspaceRecord| w@)
}

/// A read snapshot of the host's workspaces. `workspaces` holds each
/// workspace once, in id order; `archived_sessions` is kept in id order
/// without repeats, as the host's set yields it.
#[derive(Clone, Debug)]
pub struct WorkspaceStateView {
    pub workspaces: Vec<WorkspaceRecord>,
    pub workspace_order: Vec<String>,
    pub archived_sessions: Vec<String>,
    pub session_ids: Vec<String>,
}

/// A durable control-store change.
#[derive(Clone, Debug)]
pub enum ControlEvent {
    WorkspaceDefined { workspace: WorkspaceRecord },
    WorkspaceOrderSet { workspace_ids: Vec<String> },
    WorkspaceRemoved { workspace_id: String },
    ArchivedSessionsSet { session_ids: Vec<String> },
}

/// A change published to connected clients.
#[derive(Clone, Debug)]
pub enum HostEvent {
    WorkspaceChanged { workspace: WorkspaceRecord },
    WorkspaceRemoved { workspace_id: String },
    WorkspaceOrderChanged { workspace_ids: Vec<String> },
    ArchivedSessionsChanged { session_ids: Vec<String> },
}

/// The answer to the request.
#[derive(Clone, Debug)]
pub enum WorkspaceResponse {
    /// The workspace; `created` is present for a create request.
    Workspace { workspace: WorkspaceRecord, created: Option<bool> },
    Deleted,
    WorkspaceIds { workspace_ids: Vec<String> },
    ArchivedSessionIds { session_ids: Vec<String> },
}

#[derive(Clone, Debug)]
pub struct WorkspaceMutation {
    pub control_events: Vec<ControlEvent>,
    pub response: WorkspaceResponse,
    pub host_events: Vec<HostEvent>,
}

#[derive(Clone, Debug, PartialEq, Eq)]
pub enum WorkspaceError {
    WorkspaceNotFound { workspace_id: String },
    SessionNotFound { session_id: String },
    /// The workspace move anchor is the workspace itself or unknown.
    WorkspaceMoveInvalid { workspace_id: String, before_workspace_id: String },
    /// The session move anchor is the session itself or not in the workspace.
    SessionMoveInvalid { workspace_id: String, session_id: String },
}

pub enum ControlEventView {
    WorkspaceDefined(WorkspaceView),
    WorkspaceOrderSet(Seq<Seq<char>>),
    WorkspaceRemoved(Seq<char>),
    ArchivedSessionsSet(Seq<Seq<char>>),
}

impl View for ControlEvent {
    type V = ControlEventView;

    open spec fn view(&self) -> ControlEventView {
        match self {
            ControlEvent::WorkspaceDefined { workspace } => ControlEventView::WorkspaceDefined(workspace@),
            ControlEvent::WorkspaceOrderSet { workspace_ids } => ControlEventView::WorkspaceOrderSet(strs_view(workspace_ids@)),
            ControlEvent::WorkspaceRemoved { workspace_id } => ControlEventView::WorkspaceRemoved(workspace_id@),
            ControlEvent::ArchivedSessionsSet { session_ids } => ControlEventView::ArchivedSessionsSet(strs_view(session_ids@)),
        }
    }
}

pub enum HostEventView {
    WorkspaceChanged(WorkspaceView),
    WorkspaceRemoved(Seq<char>),
    WorkspaceOrderChanged(Seq<Seq<char>>),
    ArchivedSessionsChanged(Seq<Seq<char>>),
}

impl View for HostEvent {
    type V = HostEventView;

    open spec fn view(&self) -> HostEventView {
        match self {
            HostEvent::WorkspaceChanged { workspace } => HostEventView::WorkspaceChanged(workspace@),
            HostEvent::WorkspaceRemoved { workspace_id } => HostEventView::WorkspaceRemoved(workspace_id@),
            HostEvent::WorkspaceOrderChanged { workspace_ids } => HostEventView::WorkspaceOrderChanged(strs_view(workspace_ids@)),
            HostEvent::ArchivedSessionsChanged { session_ids } => HostEventView::ArchivedSessionsChanged(strs_view(session_ids@)),
        }
    }
}

pub enum ResponseView {
    Workspace(WorkspaceView, Option<bool>),
    Deleted,
    WorkspaceIds(Seq<Seq<char>>),
    ArchivedSessionIds(Seq<Seq<char>>),
}

impl View for WorkspaceResponse {
    type V = ResponseView;

    open spec fn view(&self) -> ResponseView {
        match self {
            WorkspaceResponse::Workspace { workspace, created } => ResponseView::Workspace(workspace@, *created),
            WorkspaceResponse::Deleted => ResponseView::Deleted,
            WorkspaceResponse::WorkspaceIds { workspace_ids } => ResponseView::WorkspaceIds(strs_view(workspace_ids@)),
            WorkspaceResponse::ArchivedSessionIds { session_ids } => ResponseView::ArchivedSessionIds(strs_view(session_ids@)),
        }
    }
}

pub struct MutationView {
    pub control_events: Seq<ControlEventView>,
    pub response: ResponseView,
    pub host_events: Seq<HostEventView>,
}

impl View for WorkspaceMutation {
    type V = MutationView;

    open spec fn view(&self) -> MutationView {
        MutationView {
            control_events: self.control_events@.map_values(|e: ControlEvent| e@),
            response: self.response@,
            host_events: self.host_events@.map_values(|e: HostEvent| e@),
        }
    }
}

pub enum WorkspaceErrorView {
    WorkspaceNotFound(Seq<char>),
    SessionNotFound(Seq<char>),
    WorkspaceMoveInvalid(Seq<char>, Seq<char>),
    SessionMoveInvalid(Seq<char>, Seq<char>),
}

impl View for WorkspaceError {
    type V = WorkspaceErrorView;

    open spec fn view(&self) -> WorkspaceErrorView {
        match self {
            WorkspaceError::WorkspaceNotFound { workspace_id } => WorkspaceErrorView::WorkspaceNotFound(workspace_id@),
            WorkspaceError::SessionNotFound { session_id } => WorkspaceErrorView::SessionNotFound(session_id@),
            WorkspaceError::WorkspaceMoveInvalid { workspace_id, before_workspace_id } =>
                WorkspaceErrorView::WorkspaceMoveInvalid(workspace_id@, before_workspace_id@),
            WorkspaceError::SessionMoveInvalid { workspace_id, session_id } =>
                WorkspaceErrorView::SessionMoveInvalid(workspace_id@, session_id@),
        }
    }
}

pub open spec fn mutation_result_view(r: Result<WorkspaceMutation, WorkspaceError>) -> Result<MutationView, WorkspaceErrorView> {
    match r {
        Ok(m) => Ok(m@),
        Err(e) => Err(e@),
    }
}

// ---------------------------------------------------------------------------
// Sequence helpers
// ---------------------------------------------------------------------------

/// Index of the first occurrence of `x` in `s`, or -1.
pub open spec fn index_of(s: Seq<Seq<char>>, x: Seq<char>) -> int
    decreases s.len(),
{
    if s.len() == 0 {
        -1
    } else if s[0] == x {
        0
    } else {
        let i = index_of(s.drop_first(), x);
        if i < 0 { -1 } else { i + 1 }
    }
}

pub proof fn lemma_index_of(s: Seq<Seq<char>>, x: Seq<char>)
    ensures
        -1 <= index_of(s, x) < s.len(),
        index_of(s, x) >= 0 ==> s[index_of(s, x)] == x,
        index_of(s, x) >= 0 ==> forall|j: int| 0 <= j < index_of(s, x) ==> s[j] != x,
        index_of(s, x) < 0 ==> forall|j: int| 0 <= j < s.len() ==> s[j] != x,
    decreases s.len(),
{
    if s.len() > 0 && s[0] != x {
        lemma_index_of(s.drop_first(), x);
        assert forall|j: int| 0 < j < s.len() implies s[j] == s.drop_first()[j - 1] by {}
    }
}

pub(crate) fn find_str(v: &Vec<String>, x: &str) -> (r: Option<usize>)
    ensures
        match r {
            Some(i) => index_of(strs_view(v@), x@) == i,
            None => index_of(strs_view(v@), x@) < 0,
        },
{
    proof {
        lemma_index_of(strs_view(v@), x@);
    }
    let mut i: usize = 0;
    while i < v.len()
        invariant
            i <= v@.len(),
            -1 <= index_of(strs_view(v@), x@) < v@.len(),
            index_of(strs_view(v@), x@) >= 0 ==> strs_view(v@)[index_of(strs_view(v@), x@)] == x@,
            index_of(strs_view(v@), x@) >= 0 ==> forall|j: int| 0 <= j < index_of(strs_view(v@), x@) ==> strs_view(v@)[j] != x@,
            index_of(strs_view(v@), x@) < 0 ==> forall|j: int| 0 <= j < v@.len() ==> strs_view(v@)[j] != x@,
            forall|j: int| 0 <= j < i ==> strs_view(v@)[j] != x@,
        decreases v.len() - i,
    {
        assert(strs_view(v@)[i as int] == v@[i as int]@);
        if str_eq(v[i].as_str(), x) {
            return Some(i);
        }
        i = i + 1;
    }
    None
}

/// `v` without any occurrence of `x`, order kept.
fn without(v: &Vec<String>, x: &str) -> (r: Vec<String>)
    ensures
        strs_view(r@) == remove_all(strs_view(v@), x@),
{
    let mut out: Vec<String> = Vec::new();
    let mut i: usize = 0;
    while i < v.len()
        invariant
            i <= v@.len(),
            strs_view(out@) == remove_all(strs_view(v@).take(i as int), x@),
        decreases v.len() - i,
    {
        assert(strs_view(v@).take(i + 1).drop_last() =~= strs_view(v@).take(i as int));
        if !str_eq(v[i].as_str(), x) {
            out.push(owned(v[i].as_str()));
            assert(strs_view(out@) =~= remove_all(strs_view(v@).take(i as int), x@).push(v@[i as int]@));
        }
        i = i + 1;
    }
    assert(strs_view(v@).take(v@.len() as int) =~= strs_view(v@));
    out
}

/// `order` with `x` moved before the first `anchor` (at the end when there
/// is none).
pub open spec fn moved_before(order: Seq<Seq<char>>, x: Seq<char>, anchor: Option<Seq<char>>) -> Seq<Seq<char>> {
    let rest = remove_all(order, x);
    let at = match anchor {
        Some(a) => if index_of(rest, a) >= 0 { index_of(rest, a) } else { rest.len() as int },
        None => rest.len() as int,
    };
    rest.insert(at, x)
}

fn move_before(order: &Vec<String>, x: &str, anchor: Option<&str>) -> (r: Vec<String>)
    ensures
        strs_view(r@) == moved_before(strs_view(order@), x@, match anchor {
            Some(a) => Some(a@),
            None => None,
        }),
{
    let mut rest = without(order, x);
    proof {
        match anchor {
            Some(a) => lemma_index_of(strs_view(rest@), a@),
            None => {},
        }
    }
    let at = match anchor {
        Some(a) => match find_str(&rest, a) {
            Some(i) => i,
            None => rest.len(),
        },
        None => rest.len(),
    };
    let ghost r0 = rest@;
    rest.insert(at, owned(x));
    assert(strs_view(rest@) =~= strs_view(r0).insert(at as int, x@));
    rest
}

/// The sorted id set `s` with `x` added.
pub open spec fn set_insert(s: Seq<Seq<char>>, x: Seq<char>) -> Seq<Seq<char>> {
    if s.contains(x) {
        s
    } else {
        s.insert(sorted_pos(s, x, 0), x)
    }
}

/// First position from `k` whose id is greater than `x`.
pub open spec fn sorted_pos(s: Seq<Seq<char>>, x: Seq<char>, k: int) -> int
    decreases s.len() - k,
{
    if k < 0 || k >= s.len() {
        s.len() as int
    } else if str_lt(x, s[k]) {
        k
    } else {
        sorted_pos(s, x, k + 1)
    }
}

fn sorted_insert(v: &Vec<String>, x: &str) -> (r: Vec<String>)
    ensures
        strs_view(r@) == set_insert(strs_view(v@), x@),
{
    proof {
        lemma_index_of(strs_view(v@), x@);
    }
    let mut out = copy_strs(v);
    match find_str(v, x) {
        Some(i) => {
            assert(strs_view(v@).contains(x@)) by {
                assert(strs_view(v@)[i as int] == x@);
            }
            out
        },
        None => {
            assert(!strs_view(v@).contains(x@));
            let mut k: usize = 0;
            while k < v.len() && !str_less(x, v[k].as_str())
                invariant
                    k <= v@.len(),
                    sorted_pos(strs_view(v@), x@, 0) == sorted_pos(strs_view(v@), x@, k as int),
                decreases v.len() - k,
            {
                k = k + 1;
            }
            let ghost o0 = out@;
            out.insert(k, owned(x));
            assert(strs_view(out@) =~= strs_view(o0).insert(k as int, x@));
            out
        },
    }
}

// ---------------------------------------------------------------------------
// Lookups and titles
// ---------------------------------------------------------------------------

pub open spec fn ws_ids(ws: Seq<WorkspaceView>) -> Seq<Seq<char>> {
    ws.map_values(|w: WorkspaceView| w.workspace_id)
}

/// The workspace with id `id`, if the snapshot has one.
pub open spec fn ws_lookup(ws: Seq<WorkspaceView>, id: Seq<char>) -> Option<WorkspaceView> {
    let i = index_of(ws_ids(ws), id);
    if i >= 0 { Some(ws[i]) } else { None }
}

/// The workspace whose path is `path`, if any.
pub open spec fn ws_by_path(ws: Seq<WorkspaceView>, path: Seq<char>) -> Option<WorkspaceView> {
    let i = index_of(ws_paths(ws), path);
    if i >= 0 { Some(ws[i]) } else { None }
}

/// What `Path::file_name` returns for a path, as text.
pub uninterp spec fn file_name(path: Seq<char>) -> Option<Seq<char>>;

/// `Path::file_name`: the last normal component, unless the path ends in
/// `..` or is a root or empty.
#[verifier::external_body]
fn path_file_name(path: &str) -> (r: Option<String>)
    ensures
        match r {
            Some(n) => file_name(path@) == Some(n@),
            None => file_name(path@) is None,
        },
{
    std::path::Path::new(path).file_name().and_then(|name| name.to_str()).map(|name| name.to_owned())
}

/// A new workspace is titled by its directory's name, or by its path.
pub open spec fn workspace_title(path: Seq<char>) -> Seq<char> {
    match file_name(path) {
        Some(n) => if n.len() > 0 { n } else { path },
        None => path,
    }
}

pub(crate) fn copy_record(w: &WorkspaceRecord) -> (r: WorkspaceRecord)
    ensures
        r@ == w@,
{
    WorkspaceRecord {
        workspace_id: owned(w.workspace_id.as_str()),
        path: owned(w.path.as_str()),
        title: owned(w.title.as_str()),
        session_ids: copy_strs(&w.session_ids),
        created_at: owned(w.created_at.as_str()),
        updated_at: owned(w.updated_at.as_str()),
    }
}


pub open spec fn ws_paths(ws: Seq<WorkspaceView>) -> Seq<Seq<char>> {
    ws.map_values(|w: WorkspaceView| w.path)
}

pub open spec fn opt_str(o: Option<&str>) -> Option<Seq<char>> {
    match o {
        Some(a) => Some(a@),
        None => None,
    }
}

/// What creating a workspace at `path` with a fresh `id` at time `t` commits,
/// answers and publishes.
pub open spec fn create_view(order: Seq<Seq<char>>, path: Seq<char>, id: Seq<char>, t: Seq<char>) -> MutationView {
    let w = WorkspaceView {
        workspace_id: id,
        path,
        title: workspace_title(path),
        session_ids: Seq::empty(),
        created_at: t,
        updated_at: t,
    };
    MutationView {
        control_events: seq![ControlEventView::WorkspaceDefined(w), ControlEventView::WorkspaceOrderSet(order.push(id))],
        response: ResponseView::Workspace(w, Some(true)),
        host_events: seq![HostEventView::WorkspaceChanged(w)],
    }
}

/// A receipt for an already registered path: nothing to commit or publish.
pub open spec fn existing_view(w: WorkspaceView) -> MutationView {
    MutationView {
        control_events: Seq::empty(),
        response: ResponseView::Workspace(w, Some(false)),
        host_events: Seq::empty(),
    }
}

/// A workspace redefined: committed, answered and published as is.
pub open spec fn defined_view(w: WorkspaceView) -> MutationView {
    MutationView {
        control_events: seq![ControlEventView::WorkspaceDefined(w)],
        response: ResponseView::Workspace(w, None),
        host_events: seq![HostEventView::WorkspaceChanged(w)],
    }
}

pub open spec fn delete_view(order: Seq<Seq<char>>, id: Seq<char>) -> MutationView {
    let rest = remove_all(order, id);
    MutationView {
        control_events: seq![ControlEventView::WorkspaceRemoved(id), ControlEventView::WorkspaceOrderSet(rest)],
        response: ResponseView::Deleted,
        host_events: seq![HostEventView::WorkspaceRemoved(id), HostEventView::WorkspaceOrderChanged(rest)],
    }
}

pub open spec fn order_view(order: Seq<Seq<char>>) -> MutationView {
    MutationView {
        control_events: seq![ControlEventView::WorkspaceOrderSet(order)],
        response: ResponseView::WorkspaceIds(order),
        host_events: seq![HostEventView::WorkspaceOrderChanged(order)],
    }
}

pub open spec fn archive_view(archived: Seq<Seq<char>>) -> MutationView {
    MutationView {
        control_events: seq![ControlEventView::ArchivedSessionsSet(archived)],
        response: ResponseView::ArchivedSessionIds(archived),
        host_events: seq![HostEventView::ArchivedSessionsChanged(archived)],
    }
}

/// Moving workspace `id` before `before`.
pub open spec fn insert_before_spec(
    ws: Seq<WorkspaceView>,
    order: Seq<Seq<char>>,
    id: Seq<char>,
    before: Option<Seq<char>>,
) -> Result<MutationView, WorkspaceErrorView> {
    if ws_lookup(ws, id) is None {
        Err(WorkspaceErrorView::WorkspaceNotFound(id))
    } else if before matches Some(b) && (b == id || ws_lookup(ws, b) is None) {
        Err(WorkspaceErrorView::WorkspaceMoveInvalid(id, before->0))
    } else {
        Ok(order_view(moved_before(order, id, before)))
    }
}

pub open spec fn delete_spec(ws: Seq<WorkspaceView>, order: Seq<Seq<char>>, id: Seq<char>) -> Result<MutationView, WorkspaceErrorView> {
    if ws_lookup(ws, id) is None {
        Err(WorkspaceErrorView::WorkspaceNotFound(id))
    } else {
        Ok(delete_view(order, id))
    }
}

pub open spec fn archive_spec(sessions: Seq<Seq<char>>, archived: Seq<Seq<char>>, sid: Seq<char>) -> Result<MutationView, WorkspaceErrorView> {
    if !sessions.contains(sid) {
        Err(WorkspaceErrorView::SessionNotFound(sid))
    } else {
        Ok(archive_view(set_insert(archived, sid)))
    }
}

/// The checks a session move passes before anything changes.
pub open spec fn session_move_error(
    ws: Seq<WorkspaceView>,
    sessions: Seq<Seq<char>>,
    ws_id: Seq<char>,
    sid: Seq<char>,
    before: Option<Seq<char>>,
) -> Option<WorkspaceErrorView> {
    if !sessions.contains(sid) {
        Some(WorkspaceErrorView::SessionNotFound(sid))
    } else if ws_lookup(ws, ws_id) is None {
        Some(WorkspaceErrorView::WorkspaceNotFound(ws_id))
    } else if before matches Some(b) && (b == sid || !ws_lookup(ws, ws_id)->0.session_ids.contains(b)) {
        Some(WorkspaceErrorView::SessionMoveInvalid(ws_id, sid))
    } else {
        None
    }
}

/// The workspace after moving session `sid` before `before` at time `t`.
pub open spec fn session_moved(w: WorkspaceView, sid: Seq<char>, before: Option<Seq<char>>, t: Seq<char>) -> WorkspaceView {
    WorkspaceView { session_ids: moved_before(w.session_ids, sid, before), updated_at: t, ..w }
}

/// The workspace a host seeds for its configured directory (already
/// resolved to a canonical path), so a new session always has a choice.
pub fn default_workspace(path: &str, now: &str) -> (r: WorkspaceRecord)
    ensures
        r@ == (WorkspaceView {
            workspace_id: "workspace-default"@,
            path: path@,
            title: workspace_title(path@),
            session_ids: Seq::empty(),
            created_at: now@,
            updated_at: now@,
        }),
{
    let title = match path_file_name(path) {
        Some(n) => if n.unicode_len() > 0 { n } else { owned(path) },
        None => owned(path),
    };
    let r = WorkspaceRecord {
        workspace_id: owned("workspace-default"),
        path: owned(path),
        title,
        session_ids: Vec::new(),
        created_at: owned(now),
        updated_at: owned(now),
    };
    assert(strs_view(r.session_ids@) =~= Seq::<Seq<char>>::empty());
    r
}

// ---------------------------------------------------------------------------
// The processor
// ---------------------------------------------------------------------------

pub struct WorkspaceProcessor {
    pub state: WorkspaceStateView,
}

impl WorkspaceProcessor {
    pub open spec fn spaces(&self) -> Seq<WorkspaceView> {
        ws_views(self.state.workspaces@)
    }

    pub fn new(state: WorkspaceStateView) -> (r: Self)
        ensures
            r.state == state,
    {
        WorkspaceProcessor { state }
    }

    fn index_of_workspace(&self, workspace_id: &str) -> (r: Option<usize>)
        ensures
            match r {
                Some(i) => index_of(ws_ids(self.spaces()), workspace_id@) == i && i < self.state.workspaces@.len(),
                None => index_of(ws_ids(self.spaces()), workspace_id@) < 0,
            },
    {
        find_ws_id(&self.state.workspaces, workspace_id)
    }

    /// The workspace with id `workspace_id`.
    pub fn workspace(&self, workspace_id: &str) -> (r: Result<&WorkspaceRecord, WorkspaceError>)
        ensures
            match r {
                Ok(w) => ws_lookup(self.spaces(), workspace_id@) == Some(w@),
                Err(e) => ws_lookup(self.spaces(), workspace_id@) is None
                    && e@ == WorkspaceErrorView::WorkspaceNotFound(workspace_id@),
            },
    {
        match self.index_of_workspace(workspace_id) {
            Some(i) => Ok(&self.state.workspaces[i]),
            None => Err(WorkspaceError::WorkspaceNotFound { workspace_id: owned(workspace_id) }),
        }
    }

    fn contains_session(&self, sid: &str) -> (r: bool)
        ensures
            r == strs_view(self.state.session_ids@).contains(sid@),
    {
        proof {
            lemma_index_of(strs_view(self.state.session_ids@), sid@);
        }
        let found = find_str(&self.state.session_ids, sid);
        proof {
            if found is Some {
                assert(strs_view(self.state.session_ids@)[found->0 as int] == sid@);
            }
        }
        found.is_some()
    }

    fn by_path(&self, path: &str) -> (r: Option<usize>)
        ensures
            match r {
                Some(i) => i < self.spaces().len() && ws_by_path(self.spaces(), path@) == Some(self.spaces()[i as int]),
                None => ws_by_path(self.spaces(), path@) is None,
            },
    {
        let r = find_ws_path(&self.state.workspaces, path);
        proof {
            lemma_index_of(ws_paths(self.spaces()), path@);
        }
        r
    }

    /// Define a workspace for `path`, or answer the existing one without
    /// minting an id or reading the clock.
    pub fn create<F: FnOnce() -> String, G: FnOnce() -> String>(&self, path: String, mint_id: F, now: G) -> (r: WorkspaceMutation)
        requires
            call_requires(mint_id, ()),
            call_requires(now, ()),
        ensures
            match ws_by_path(self.spaces(), path@) {
                Some(w) => r@ == existing_view(w),
                None => exists|id: String, t: String| call_ensures(mint_id, (), id) && call_ensures(now, (), t)
                    && r@ == create_view(strs_view(self.state.workspace_order@), path@, id@, t@),
            },
    {
        match self.by_path(path.as_str()) {
            Some(i) => {
                let w = copy_record(&self.state.workspaces[i]);
                let m = WorkspaceMutation {
                    control_events: Vec::new(),
                    response: WorkspaceResponse::Workspace { workspace: w, created: Some(false) },
                    host_events: Vec::new(),
                };
                assert(m@.control_events =~= Seq::<ControlEventView>::empty());
                assert(m@.host_events =~= Seq::<HostEventView>::empty());
                m
            },
            None => {
                let id = mint_id();
                let t = now();
                let title = match path_file_name(path.as_str()) {
                    Some(n) => if n.unicode_len() > 0 { n } else { owned(path.as_str()) },
                    None => owned(path.as_str()),
                };
                let record = WorkspaceRecord {
                    workspace_id: owned(id.as_str()),
                    path: owned(path.as_str()),
                    title,
                    session_ids: Vec::new(),
                    created_at: owned(t.as_str()),
                    updated_at: owned(t.as_str()),
                };
                assert(strs_view(record.session_ids@) =~= Seq::<Seq<char>>::empty());
                let mut order = copy_strs(&self.state.workspace_order);
                order.push(owned(id.as_str()));
                assert(strs_view(order@) =~= strs_view(self.state.workspace_order@).push(id@));
                let mut control_events: Vec<ControlEvent> = Vec::new();
                control_events.push(ControlEvent::WorkspaceDefined { workspace: copy_record(&record) });
                control_events.push(ControlEvent::WorkspaceOrderSet { workspace_ids: order });
                let mut host_events: Vec<HostEvent> = Vec::new();
                host_events.push(HostEvent::WorkspaceChanged { workspace: copy_record(&record) });
                let m = WorkspaceMutation {
                    control_events,
                    response: WorkspaceResponse::Workspace { workspace: record, created: Some(true) },
                    host_events,
                };
                assert(m@ == create_view(strs_view(self.state.workspace_order@), path@, id@, t@)) by {
                    assert(m@.control_events =~= create_view(strs_view(self.state.workspace_order@), path@, id@, t@).control_events);
                    assert(m@.host_events =~= create_view(strs_view(self.state.workspace_order@), path@, id@, t@).host_events);
                }
                m
            },
        }
    }

    /// Retitle a workspace.
    #[verifier::spinoff_prover]
    pub fn rename<G: FnOnce() -> String>(&self, workspace_id: &str, title: String, now: G) -> (r: Result<WorkspaceMutation, WorkspaceError>)
        requires
            call_requires(now, ()),
        ensures
            match ws_lookup(self.spaces(), workspace_id@) {
                None => r matches Err(e) && e@ == WorkspaceErrorView::WorkspaceNotFound(workspace_id@),
                Some(w) => r is Ok && exists|t: String| #[trigger] call_ensures(now, (), t)
                    && r->Ok_0@ == defined_view(WorkspaceView { title: title@, updated_at: t@, ..w }),
            },
    {
        let w = match self.workspace(workspace_id) {
            Ok(w) => w,
            Err(e) => return Err(e),
        };
        let t = now();
        let mut record = copy_record(w);
        record.title = title;
        record.updated_at = t;
        let ghost rv = record@;
        let mut control_events: Vec<ControlEvent> = Vec::new();
        control_events.push(ControlEvent::WorkspaceDefined { workspace: copy_record(&record) });
        let mut host_events: Vec<HostEvent> = Vec::new();
        host_events.push(HostEvent::WorkspaceChanged { workspace: copy_record(&record) });
        let m = WorkspaceMutation {
            control_events,
            response: WorkspaceResponse::Workspace { workspace: record, created: None },
            host_events,
        };
        assert(m@.control_events =~= defined_view(rv).control_events);
        assert(m@.host_events =~= defined_view(rv).host_events);
        assert(rv == WorkspaceView { title: title@, updated_at: t@, ..w@ });
        assert(m@ == defined_view(rv));
        assert(call_ensures(now, (), t));
        let r: Result<WorkspaceMutation, WorkspaceError> = Ok(m);
        assert(r->Ok_0@ == defined_view(WorkspaceView { title: title@, updated_at: t@, ..w@ }));
        r
    }

    /// Remove a workspace and drop it from the display order.
    pub fn delete(&self, workspace_id: &str) -> (r: Result<WorkspaceMutation, WorkspaceError>)
        ensures
            mutation_result_view(r) == delete_spec(self.spaces(), strs_view(self.state.workspace_order@), workspace_id@),
    {
        self.workspace(workspace_id)?;
        let order = without(&self.state.workspace_order, workspace_id);
        let mut control_events: Vec<ControlEvent> = Vec::new();
        control_events.push(ControlEvent::WorkspaceRemoved { workspace_id: owned(workspace_id) });
        control_events.push(ControlEvent::WorkspaceOrderSet { workspace_ids: copy_strs(&order) });
        let mut host_events: Vec<HostEvent> = Vec::new();
        host_events.push(HostEvent::WorkspaceRemoved { workspace_id: owned(workspace_id) });
        host_events.push(HostEvent::WorkspaceOrderChanged { workspace_ids: order });
        let m = WorkspaceMutation { control_events, response: WorkspaceResponse::Deleted, host_events };
        let ghost v = delete_view(strs_view(self.state.workspace_order@), workspace_id@);
        assert(m@.control_events =~= v.control_events);
        assert(m@.host_events =~= v.host_events);
        Ok(m)
    }

    fn order_mutation(order: Vec<String>) -> (m: WorkspaceMutation)
        ensures
            m@ == order_view(strs_view(order@)),
    {
        let mut control_events: Vec<ControlEvent> = Vec::new();
        control_events.push(ControlEvent::WorkspaceOrderSet { workspace_ids: copy_strs(&order) });
        let mut host_events: Vec<HostEvent> = Vec::new();
        host_events.push(HostEvent::WorkspaceOrderChanged { workspace_ids: copy_strs(&order) });
        let m = WorkspaceMutation {
            control_events,
            response: WorkspaceResponse::WorkspaceIds { workspace_ids: order },
            host_events,
        };
        assert(m@.control_events =~= order_view(strs_view(order@)).control_events);
        assert(m@.host_events =~= order_view(strs_view(order@)).host_events);
        m
    }

    /// Move workspace `workspace_id` before `before_workspace_id` (to the
    /// end when there is none).
    pub fn insert_before(&self, workspace_id: &str, before_workspace_id: Option<&str>) -> (r: Result<WorkspaceMutation, WorkspaceError>)
        ensures
            mutation_result_view(r) == insert_before_spec(
                self.spaces(),
                strs_view(self.state.workspace_order@),
                workspace_id@,
                opt_str(before_workspace_id),
            ),
    {
        self.workspace(workspace_id)?;
        match before_workspace_id {
            Some(before) => {
                if str_eq(before, workspace_id) || self.workspace(before).is_err() {
                    return Err(
                        WorkspaceError::WorkspaceMoveInvalid {
                            workspace_id: owned(workspace_id),
                            before_workspace_id: owned(before),
                        },
                    );
                }
            },
            None => {},
        }
        let order = move_before(&self.state.workspace_order, workspace_id, before_workspace_id);
        Ok(Self::order_mutation(order))
    }

    /// Move session `session_id` within workspace `workspace_id` before
    /// `before_session_id` (to the end when there is none).
    pub fn insert_session_before<G: FnOnce() -> String>(
        &self,
        workspace_id: &str,
        session_id: &str,
        before_session_id: Option<&str>,
        now: G,
    ) -> (r: Result<WorkspaceMutation, WorkspaceError>)
        requires
            call_requires(now, ()),
        ensures
            match session_move_error(
                self.spaces(),
                strs_view(self.state.session_ids@),
                workspace_id@,
                session_id@,
                opt_str(before_session_id),
            ) {
                Some(e) => r matches Err(x) && x@ == e,
                None => r is Ok && exists|t: String| #[trigger] call_ensures(now, (), t) && r->Ok_0@ == defined_view(
                    session_moved(ws_lookup(self.spaces(), workspace_id@)->0, session_id@, opt_str(before_session_id), t@),
                ),
            },
    {
        if !self.contains_session(session_id) {
            return Err(WorkspaceError::SessionNotFound { session_id: owned(session_id) });
        }
        let w = self.workspace(workspace_id)?;
        match before_session_id {
            Some(before) => {
                proof {
                    lemma_index_of(strs_view(w.session_ids@), before@);
                }
                let found = find_str(&w.session_ids, before);
                proof {
                    if found is Some {
                        assert(strs_view(w.session_ids@)[found->0 as int] == before@);
                    }
                }
                if str_eq(before, session_id) || found.is_none() {
                    return Err(
                        WorkspaceError::SessionMoveInvalid {
                            workspace_id: owned(workspace_id),
                            session_id: owned(session_id),
                        },
                    );
                }
            },
            None => {},
        }
        let sessions = move_before(&w.session_ids, session_id, before_session_id);
        let t = now();
        let mut record = copy_record(w);
        record.session_ids = sessions;
        record.updated_at = t;
        let ghost rv = record@;
        let mut control_events: Vec<ControlEvent> = Vec::new();
        control_events.push(ControlEvent::WorkspaceDefined { workspace: copy_record(&record) });
        let mut host_events: Vec<HostEvent> = Vec::new();
        host_events.push(HostEvent::WorkspaceChanged { workspace: copy_record(&record) });
        let m = WorkspaceMutation {
            control_events,
            response: WorkspaceResponse::Workspace { workspace: record, created: None },
            host_events,
        };
        assert(m@.control_events =~= defined_view(rv).control_events);
        assert(m@.host_events =~= defined_view(rv).host_events);
        assert(rv == session_moved(w@, session_id@, opt_str(before_session_id), t@));
        assert(m@ == defined_view(rv));
        assert(call_ensures(now, (), t));
        Ok(m)
    }

    /// Archive a session: add it to the archived set.
    pub fn archive_session(&self, session_id: &str) -> (r: Result<WorkspaceMutation, WorkspaceError>)
        ensures
            mutation_result_view(r) == archive_spec(
                strs_view(self.state.session_ids@),
                strs_view(self.state.archived_sessions@),
                session_id@,
            ),
    {
        if !self.contains_session(session_id) {
            return Err(WorkspaceError::SessionNotFound { session_id: owned(session_id) });
        }
        let archived = sorted_insert(&self.state.archived_sessions, session_id);
        let mut control_events: Vec<ControlEvent> = Vec::new();
        control_events.push(ControlEvent::ArchivedSessionsSet { session_ids: copy_strs(&archived) });
        let mut host_events: Vec<HostEvent> = Vec::new();
        host_events.push(HostEvent::ArchivedSessionsChanged { session_ids: copy_strs(&archived) });
        let m = WorkspaceMutation {
            control_events,
            response: WorkspaceResponse::ArchivedSessionIds { session_ids: archived },
            host_events,
        };
        let ghost v = archive_view(set_insert(strs_view(self.state.archived_sessions@), session_id@));
        assert(m@.control_events =~= v.control_events);
        assert(m@.host_events =~= v.host_events);
        Ok(m)
    }

    /// The workspaces in display order (ids without a workspace are
    /// skipped) and the archived session ids.
    pub fn list(&self) -> (r: (Vec<WorkspaceRecord>, Vec<String>))
        ensures
            ws_views(r.0@) == listed(self.spaces(), strs_view(self.state.workspace_order@)),
            strs_view(r.1@) == strs_view(self.state.archived_sessions@),
    {
        let mut items: Vec<WorkspaceRecord> = Vec::new();
        let mut i: usize = 0;
        while i < self.state.workspace_order.len()
            invariant
                i <= self.state.workspace_order@.len(),
                ws_views(items@) == listed(self.spaces(), strs_view(self.state.workspace_order@).take(i as int)),
            decreases self.state.workspace_order.len() - i,
        {
            assert(strs_view(self.state.workspace_order@).take(i + 1).drop_last()
                =~= strs_view(self.state.workspace_order@).take(i as int));
            match self.workspace(self.state.workspace_order[i].as_str()) {
                Ok(w) => {
                    let c = copy_record(w);
                    let ghost before = items@;
                    items.push(c);
                    assert(ws_views(items@) =~= ws_views(before).push(c@));
                },
                Err(_) => {},
            }
            i = i + 1;
        }
        assert(strs_view(self.state.workspace_order@).take(self.state.workspace_order@.len() as int)
            =~= strs_view(self.state.workspace_order@));
        (items, copy_strs(&self.state.archived_sessions))
    }
}

/// The workspaces named by `order` that exist, in that order.
pub open spec fn listed(ws: Seq<WorkspaceView>, order: Seq<Seq<char>>) -> Seq<WorkspaceView>
    decreases order.len(),
{
    if order.len() == 0 {
        Seq::empty()
    } else {
        let prev = listed(ws, order.drop_last());
        match ws_lookup(ws, order.last()) {
            Some(w) => prev.push(w),
            None => prev,
        }
    }
}


pub proof fn lemma_remove_all_contains(s: Seq<Seq<char>>, id: Seq<char>, x: Seq<char>)
    ensures
        remove_all(s, id).contains(x) <==> (s.contains(x) && x != id),
        !remove_all(s, id).contains(id),
    decreases s.len(),
{
    if s.len() > 0 {
        let q = s.drop_last();
        lemma_remove_all_contains(q, id, x);
        let r = remove_all(s, id);
        let rq = remove_all(q, id);
        if s.contains(x) && x != id {
            let i = choose|i: int| 0 <= i < s.len() && s[i] == x;
            if i < q.len() {
                assert(q[i] == x);
                let j = choose|j: int| 0 <= j < rq.len() && rq[j] == x;
                assert(r[j] == x);
            } else {
                assert(r[r.len() - 1] == x);
            }
        }
        if r.contains(x) {
            let j = choose|j: int| 0 <= j < r.len() && r[j] == x;
            if j < rq.len() {
                assert(rq[j] == x);
                let i = choose|i: int| 0 <= i < q.len() && q[i] == x;
                assert(s[i] == x);
            } else {
                assert(s[s.len() - 1] == x);
            }
        }
        if r.contains(id) {
            let j = choose|j: int| 0 <= j < r.len() && r[j] == id;
            if j < rq.len() {
                assert(rq[j] == id);
            }
        }
    }
}

/// A move keeps every other entry and holds the moved one exactly once.
pub proof fn law_move_keeps_every_other_entry(order: Seq<Seq<char>>, id: Seq<char>, anchor: Option<Seq<char>>, x: Seq<char>)
    ensures
        moved_before(order, id, anchor).contains(id),
        x != id ==> (moved_before(order, id, anchor).contains(x) <==> order.contains(x)),
        moved_before(order, id, anchor).len() == remove_all(order, id).len() + 1,
{
    let rest = remove_all(order, id);
    lemma_remove_all_contains(order, id, x);
    match anchor {
        Some(a) => lemma_index_of(rest, a),
        None => {},
    }
    let at = match anchor {
        Some(a) => if index_of(rest, a) >= 0 { index_of(rest, a) } else { rest.len() as int },
        None => rest.len() as int,
    };
    let m = rest.insert(at, id);
    assert(m[at] == id);
    if x != id {
        if m.contains(x) {
            let j = choose|j: int| 0 <= j < m.len() && m[j] == x;
            if j < at {
                assert(rest[j] == x);
            } else {
                assert(rest[j - 1] == x);
            }
        }
        if rest.contains(x) {
            let j = choose|j: int| 0 <= j < rest.len() && rest[j] == x;
            if j < at {
                assert(m[j] == x);
            } else {
                assert(m[j + 1] == x);
            }
        }
    }
}


/// Ids in strictly increasing code-point order (so no id twice).
pub open spec fn sorted_ids(s: Seq<Seq<char>>) -> bool {
    forall|i: int, j: int| 0 <= i < j < s.len() ==> str_lt(#[trigger] s[i], #[trigger] s[j])
}

pub proof fn lemma_str_lt_irreflexive(a: Seq<char>)
    ensures
        !str_lt(a, a),
    decreases a.len(),
{
    if a.len() > 0 {
        lemma_str_lt_irreflexive(a.drop_first());
    }
}

pub proof fn lemma_str_lt_total(a: Seq<char>, b: Seq<char>)
    ensures
        a != b ==> str_lt(a, b) || str_lt(b, a),
    decreases a.len(),
{
    if a.len() > 0 && b.len() > 0 && a[0] == b[0] {
        lemma_str_lt_total(a.drop_first(), b.drop_first());
        if a.drop_first() == b.drop_first() {
            assert(a =~= seq![a[0]] + a.drop_first());
            assert(b =~= seq![b[0]] + b.drop_first());
        }
    } else if a.len() > 0 && b.len() > 0 {
        assert(a[0] < b[0] || b[0] < a[0]);
    } else if a.len() == 0 && b.len() == 0 {
        assert(a =~= b);
    }
}

pub proof fn lemma_str_lt_transitive(a: Seq<char>, b: Seq<char>, c: Seq<char>)
    requires
        str_lt(a, b),
        str_lt(b, c),
    ensures
        str_lt(a, c),
    decreases a.len(),
{
    if a.len() > 0 && b.len() > 0 && c.len() > 0 && a[0] == b[0] && b[0] == c[0] {
        lemma_str_lt_transitive(a.drop_first(), b.drop_first(), c.drop_first());
    }
}

pub proof fn lemma_sorted_pos(s: Seq<Seq<char>>, x: Seq<char>, k: int)
    requires
        0 <= k <= s.len(),
    ensures
        k <= sorted_pos(s, x, k) <= s.len(),
        forall|j: int| k <= j < sorted_pos(s, x, k) ==> !str_lt(x, #[trigger] s[j]),
        sorted_pos(s, x, k) < s.len() ==> str_lt(x, s[sorted_pos(s, x, k)]),
    decreases s.len() - k,
{
    if k < s.len() && !str_lt(x, s[k]) {
        lemma_sorted_pos(s, x, k + 1);
    }
}

/// Archiving keeps the archived set sorted and free of repeats, and the
/// archived session is in it afterwards.
pub proof fn law_archive_keeps_the_set_sorted(s: Seq<Seq<char>>, x: Seq<char>)
    requires
        sorted_ids(s),
    ensures
        sorted_ids(set_insert(s, x)),
        set_insert(s, x).contains(x),
{
    if s.contains(x) {
        return;
    }
    let p = sorted_pos(s, x, 0);
    lemma_sorted_pos(s, x, 0);
    let t = s.insert(p, x);
    assert(t[p] == x);
    assert forall|i: int, j: int| 0 <= i < j < t.len() implies str_lt(#[trigger] t[i], #[trigger] t[j]) by {
        if j < p {
            assert(t[i] == s[i] && t[j] == s[j]);
        } else if i > p {
            assert(t[i] == s[i - 1] && t[j] == s[j - 1]);
        } else if i < p && j > p {
            assert(t[i] == s[i] && t[j] == s[j - 1]);
        } else if i == p {
            assert(t[j] == s[j - 1]);
            assert(str_lt(x, s[p]));
            if j - 1 > p {
                assert(str_lt(s[p], s[j - 1]));
                lemma_str_lt_transitive(x, s[p], s[j - 1]);
            }
        } else {
            // j == p, i < p
            assert(t[i] == s[i]);
            assert(!str_lt(x, s[i]));
            assert(s[i] != x);
            lemma_str_lt_total(s[i], x);
        }
    }
}


// ---------------------------------------------------------------------------
// Recovering a session's workspace on restore
// ---------------------------------------------------------------------------

/// `base` followed by `k` letters `x`.
pub open spec fn padded(base: Seq<char>, k: nat) -> Seq<char> {
    base + Seq::new(k, |_j: int| 'x')
}

/// The first of `base`, `base` + "x", `base` + "xx", ... that is not among
/// `ids`, searching from `k` letters on.
pub open spec fn fresh_id(ids: Seq<Seq<char>>, base: Seq<char>, k: nat) -> Seq<char>
    decreases ids.len() + 1 - k,
{
    if k >= ids.len() || !ids.contains(padded(base, k)) {
        padded(base, k)
    } else {
        fresh_id(ids, base, k + 1)
    }
}

/// The id a recovered workspace starts from: its ordinal among the
/// workspaces the snapshot already holds.
pub open spec fn recovered_base(count: nat) -> Seq<char> {
    "workspace-recovered-"@ + dec(count)
}

/// Session `sid` listed in `w` (once), and `w` touched at time `t`.
pub open spec fn touched(w: WorkspaceView, sid: Seq<char>, t: Seq<char>) -> WorkspaceView {
    WorkspaceView {
        session_ids: if w.session_ids.contains(sid) { w.session_ids } else { w.session_ids.push(sid) },
        updated_at: t,
        ..w
    }
}

/// The workspaces and their order after a restored session `sid`, started
/// in directory `cwd`, is attached at time `t`: the first workspace whose
/// path is `cwd` takes it; without one, a workspace is recovered for `cwd`
/// under a fresh id, placed by id and appended to the order.
pub open spec fn attach_spec(
    ws: Seq<WorkspaceView>,
    order: Seq<Seq<char>>,
    sid: Seq<char>,
    cwd: Seq<char>,
    t: Seq<char>,
) -> (Seq<WorkspaceView>, Seq<Seq<char>>) {
    let i = index_of(ws_paths(ws), cwd);
    if i >= 0 {
        (ws.update(i, touched(ws[i], sid, t)), order)
    } else {
        let id = fresh_id(ws_ids(ws), recovered_base(ws.len()), 0);
        let w = WorkspaceView {
            workspace_id: id,
            path: cwd,
            title: workspace_title(cwd),
            session_ids: Seq::empty(),
            created_at: t,
            updated_at: t,
        };
        (ws.insert(sorted_pos(ws_ids(ws), id, 0), touched(w, sid, t)), order.push(id))
    }
}

/// Distinct padded ids that all occur among `ids` are no more than `ids`.
proof fn lemma_padded_bounded(ids: Seq<Seq<char>>, base: Seq<char>, k: nat)
    requires
        forall|j: nat| j < k ==> ids.contains(#[trigger] padded(base, j)),
    ensures
        k <= ids.len(),
{
    let s = Seq::new(k, |j: int| padded(base, j as nat));
    assert forall|a: int, b: int| 0 <= a < s.len() && 0 <= b < s.len() && a != b implies s[a] != s[b] by {
        assert(s[a].len() != s[b].len());
    }
    assert(s.no_duplicates());
    s.unique_seq_to_set();
    assert forall|x: Seq<char>| s.to_set().contains(x) implies ids.to_set().contains(x) by {
        let j = choose|j: int| 0 <= j < s.len() && s[j] == x;
        assert(ids.contains(padded(base, j as nat)));
    }
    ids.lemma_cardinality_of_set();
    vstd::set_lib::lemma_len_subset(s.to_set(), ids.to_set());
}

/// Index of the workspace with id `id`, if any.
pub(crate) fn find_ws_id(ws: &Vec<WorkspaceRecord>, id: &str) -> (r: Option<usize>)
    ensures
        match r {
            Some(i) => index_of(ws_ids(ws_views(ws@)), id@) == i && i < ws@.len(),
            None => index_of(ws_ids(ws_views(ws@)), id@) < 0,
        },
{
    let ghost ids = ws_ids(ws_views(ws@));
    proof {
        lemma_index_of(ids, id@);
    }
    let mut i: usize = 0;
    while i < ws.len()
        invariant
            ids == ws_ids(ws_views(ws@)),
            ids.len() == ws@.len(),
            i <= ids.len(),
            -1 <= index_of(ids, id@) < ids.len(),
            index_of(ids, id@) >= 0 ==> ids[index_of(ids, id@)] == id@,
            index_of(ids, id@) >= 0 ==> forall|j: int| 0 <= j < index_of(ids, id@) ==> ids[j] != id@,
            index_of(ids, id@) < 0 ==> forall|j: int| 0 <= j < ids.len() ==> ids[j] != id@,
            forall|j: int| 0 <= j < i ==> ids[j] != id@,
        decreases ws.len() - i,
    {
        assert(ids[i as int] == ws@[i as int].workspace_id@);
        if str_eq(ws[i].workspace_id.as_str(), id) {
            return Some(i);
        }
        i = i + 1;
    }
    None
}

/// Index of the first workspace whose path is `path`, if any.
fn find_ws_path(ws: &Vec<WorkspaceRecord>, path: &str) -> (r: Option<usize>)
    ensures
        match r {
            Some(i) => index_of(ws_paths(ws_views(ws@)), path@) == i && i < ws@.len(),
            None => index_of(ws_paths(ws_views(ws@)), path@) < 0,
        },
{
    let ghost ps = ws_paths(ws_views(ws@));
    proof {
        lemma_index_of(ps, path@);
    }
    let mut i: usize = 0;
    while i < ws.len()
        invariant
            ps == ws_paths(ws_views(ws@)),
            ps.len() == ws@.len(),
            i <= ps.len(),
            -1 <= index_of(ps, path@) < ps.len(),
            index_of(ps, path@) >= 0 ==> ps[index_of(ps, path@)] == path@,
            index_of(ps, path@) >= 0 ==> forall|j: int| 0 <= j < index_of(ps, path@) ==> ps[j] != path@,
            index_of(ps, path@) < 0 ==> forall|j: int| 0 <= j < ps.len() ==> ps[j] != path@,
            forall|j: int| 0 <= j < i ==> ps[j] != path@,
        decreases ws.len() - i,
    {
        assert(ps[i as int] == ws@[i as int].path@);
        if str_eq(ws[i].path.as_str(), path) {
            return Some(i);
        }
        i = i + 1;
    }
    None
}

/// List session `sid` in `w` unless it is there, and stamp `w` with `t`.
fn touch(w: &mut WorkspaceRecord, sid: &str, t: String)
    ensures
        final(w)@ == touched(old(w)@, sid@, t@),
{
    proof {
        lemma_index_of(strs_view(w.session_ids@), sid@);
    }
    let found = find_str(&w.session_ids, sid);
    let ghost before = w.session_ids@;
    match found {
        Some(i) => {
            assert(strs_view(before)[i as int] == sid@);
        },
        None => {
            assert(!strs_view(before).contains(sid@));
            w.session_ids.push(owned(sid));
            assert(strs_view(w.session_ids@) =~= strs_view(before).push(sid@));
        },
    }
    w.updated_at = t;
}

/// Attach a restored session to the workspace of the directory it ran in,
/// recovering a workspace for that directory when the snapshot has none.
pub fn attach_workspace(state: &mut WorkspaceStateView, session_id: &str, cwd: &str, created_at_ms: u64)
    ensures
        (ws_views(final(state).workspaces@), strs_view(final(state).workspace_order@)) == attach_spec(
            ws_views(old(state).workspaces@),
            strs_view(old(state).workspace_order@),
            session_id@,
            cwd@,
            dec(created_at_ms as nat),
        ),
        final(state).archived_sessions == old(state).archived_sessions,
        final(state).session_ids == old(state).session_ids,
{
    let ghost ws0 = ws_views(state.workspaces@);
    match find_ws_path(&state.workspaces, cwd) {
        Some(i) => {
            let mut w = copy_record(&state.workspaces[i]);
            touch(&mut w, session_id, decimal(created_at_ms));
            let ghost nw = w@;
            state.workspaces.set(i, w);
            assert(ws_views(state.workspaces@) =~= ws0.update(i as int, nw));
        },
        None => {
            let count = state.workspaces.len();
            let mut id = String::from_str("workspace-recovered-");
            let digits = decimal(count as u64);
            id.append(digits.as_str());
            let ghost ids = ws_ids(ws0);
            let ghost base = recovered_base(ws0.len());
            let ghost mut k: nat = 0;
            assert(id@ =~= padded(base, 0));
            loop
                invariant
                    ids == ws_ids(ws_views(state.workspaces@)),
                    ws0 == ws_views(state.workspaces@),
                    id@ == padded(base, k),
                    fresh_id(ids, base, 0) == fresh_id(ids, base, k),
                    forall|j: nat| j < k ==> ids.contains(#[trigger] padded(base, j)),
                ensures
                    ids == ws_ids(ws_views(state.workspaces@)),
                    ws0 == ws_views(state.workspaces@),
                    id@ == fresh_id(ids, base, 0),
                decreases ids.len() + 1 - k,
            {
                proof {
                    lemma_index_of(ids, id@);
                    lemma_padded_bounded(ids, base, k);
                }
                match find_ws_id(&state.workspaces, id.as_str()) {
                    None => {
                        assert(!ids.contains(padded(base, k)));
                        break;
                    },
                    Some(p) => {
                        assert(ids[p as int] == padded(base, k));
                        assert(ids.contains(padded(base, k)));
                        proof {
                            lemma_padded_bounded(ids, base, k + 1);
                        }
                        push_char(&mut id, 'x');
                        assert(id@ =~= padded(base, k + 1));
                        proof {
                            k = k + 1;
                        }
                    },
                }
            }
            assert(id@ == fresh_id(ids, base, 0));
            let now = decimal(created_at_ms);
            let mut w = WorkspaceRecord {
                workspace_id: owned(id.as_str()),
                path: owned(cwd),
                title: match path_file_name(cwd) {
                    Some(n) => if n.unicode_len() > 0 { n } else { owned(cwd) },
                    None => owned(cwd),
                },
                session_ids: Vec::new(),
                created_at: owned(now.as_str()),
                updated_at: owned(now.as_str()),
            };
            assert(strs_view(w.session_ids@) =~= Seq::<Seq<char>>::empty());
            touch(&mut w, session_id, now);
            let mut at: usize = 0;
            while at < state.workspaces.len() && !str_less(id.as_str(), state.workspaces[at].workspace_id.as_str())
                invariant
                    at <= state.workspaces@.len(),
                    ids == ws_ids(ws_views(state.workspaces@)),
                    sorted_pos(ids, id@, 0) == sorted_pos(ids, id@, at as int),
                decreases state.workspaces.len() - at,
            {
                assert(ids[at as int] == state.workspaces@[at as int].workspace_id@);
                at = at + 1;
            }
            proof {
                if at < state.workspaces@.len() {
                    assert(ids[at as int] == state.workspaces@[at as int].workspace_id@);
                }
            }
            let ghost nw = w@;
            state.workspaces.insert(at, w);
            assert(ws_views(state.workspaces@) =~= ws0.insert(at as int, nw));
            let ghost o0 = state.workspace_order@;
            state.workspace_order.push(id);
            assert(strs_view(state.workspace_order@) =~= strs_view(o0).push(fresh_id(ids, base, 0)));
        },
    }
}


/// The id that `fresh_id` settles on is not among `ids`.
proof fn lemma_fresh_id_is_fresh(ids: Seq<Seq<char>>, base: Seq<char>, k: nat)
    requires
        forall|j: nat| j < k ==> ids.contains(#[trigger] padded(base, j)),
    ensures
        !ids.contains(fresh_id(ids, base, k)),
    decreases ids.len() + 1 - k,
{
    if ids.contains(padded(base, k)) {
        lemma_padded_bounded(ids, base, k + 1);
        lemma_fresh_id_is_fresh(ids, base, k + 1);
    }
}

/// After a session is attached, the first workspace for its directory lists
/// it, and workspace ids that were sorted without repeats stay so.
pub proof fn law_attach_lists_the_session(
    ws: Seq<WorkspaceView>,
    order: Seq<Seq<char>>,
    sid: Seq<char>,
    cwd: Seq<char>,
    t: Seq<char>,
)
    requires
        sorted_ids(ws_ids(ws)),
    ensures
        sorted_ids(ws_ids(attach_spec(ws, order, sid, cwd, t).0)),
        ws_by_path(attach_spec(ws, order, sid, cwd, t).0, cwd) matches Some(w) && w.session_ids.contains(sid),
{
    let r = attach_spec(ws, order, sid, cwd, t).0;
    let ps = ws_paths(ws);
    let i = index_of(ps, cwd);
    lemma_index_of(ps, cwd);
    lemma_index_of(ws_paths(r), cwd);
    if i >= 0 {
        let nw = touched(ws[i], sid, t);
        assert(ws_ids(r) =~= ws_ids(ws));
        assert(ws_paths(r) =~= ps);
        if nw.session_ids.len() > ws[i].session_ids.len() {
            assert(nw.session_ids[nw.session_ids.len() - 1] == sid);
        }
        assert(nw.session_ids.contains(sid));
    } else {
        let ids = ws_ids(ws);
        let id = fresh_id(ids, recovered_base(ws.len()), 0);
        lemma_fresh_id_is_fresh(ids, recovered_base(ws.len()), 0);
        let p = sorted_pos(ids, id, 0);
        lemma_sorted_pos(ids, id, 0);
        assert(ws_ids(r) =~= ids.insert(p, id));
        law_archive_keeps_the_set_sorted(ids, id);
        assert(ws_paths(r) =~= ps.insert(p, cwd));
        assert(ws_paths(r)[p] == cwd);
        assert forall|j: int| 0 <= j < p implies ws_paths(r)[j] != cwd by {
            assert(ws_paths(r)[j] == ps[j]);
        }
        assert(index_of(ws_paths(r), cwd) == p);
        assert(r[p].session_ids[r[p].session_ids.len() - 1] == sid);
    }
}

/// Index of the first workspace from `k` on that lists session `sid`, or -1.
pub open spec fn listing_index(ws: Seq<WorkspaceView>, sid: Seq<char>, k: int) -> int
    decreases ws.len() - k,
{
    if k < 0 || k >= ws.len() {
        -1
    } else if ws[k].session_ids.contains(sid) {
        k
    } else {
        listing_index(ws, sid, k + 1)
    }
}

/// The workspace after a fork `child` of one of its sessions joins it in
/// front, at time `t`.
pub open spec fn fork_listed(w: WorkspaceView, child: Seq<char>, t: Seq<char>) -> WorkspaceView {
    WorkspaceView { session_ids: seq![child] + w.session_ids, updated_at: t, ..w }
}

/// List a fork `child_id` of session `source_id` first in the first
/// workspace (in id order) that lists the source, stamped `now`; the answer
/// is that workspace's index, if any lists the source.
pub fn list_fork(workspaces: &mut Vec<WorkspaceRecord>, source_id: &str, child_id: &str, now: String) -> (r: Option<usize>)
    ensures
        match r {
            Some(i) => {
                &&& listing_index(ws_views(old(workspaces)@), source_id@, 0) == i
                &&& ws_views(final(workspaces)@) == ws_views(old(workspaces)@).update(
                    i as int,
                    fork_listed(ws_views(old(workspaces)@)[i as int], child_id@, now@),
                )
            },
            None => {
                &&& listing_index(ws_views(old(workspaces)@), source_id@, 0) < 0
                &&& final(workspaces)@ == old(workspaces)@
            },
        },
{
    let ghost ws0 = ws_views(workspaces@);
    let mut i: usize = 0;
    while i < workspaces.len()
        invariant
            i <= workspaces@.len(),
            ws0 == ws_views(workspaces@),
            workspaces@ == old(workspaces)@,
            listing_index(ws0, source_id@, 0) == listing_index(ws0, source_id@, i as int),
        decreases workspaces.len() - i,
    {
        proof {
            lemma_index_of(strs_view(workspaces@[i as int].session_ids@), source_id@);
        }
        match find_str(&workspaces[i].session_ids, source_id) {
            Some(k) => {
                assert(ws0[i as int].session_ids[k as int] == source_id@);
                assert(ws0[i as int].session_ids.contains(source_id@));
                let mut w = copy_record(&workspaces[i]);
                let ghost before = strs_view(w.session_ids@);
                w.session_ids.insert(0, owned(child_id));
                assert(strs_view(w.session_ids@) =~= seq![child_id@] + before);
                w.updated_at = now;
                let ghost nw = w@;
                workspaces.set(i, w);
                assert(ws_views(workspaces@) =~= ws0.update(i as int, nw));
                return Some(i);
            },
            None => {
                assert(!ws0[i as int].session_ids.contains(source_id@));
            },
        }
        i = i + 1;
    }
    None
}

/// Attaching the same session to the same directory at the same time twice
/// changes nothing the second time.
pub proof fn law_attach_is_idempotent(
    ws: Seq<WorkspaceView>,
    order: Seq<Seq<char>>,
    sid: Seq<char>,
    cwd: Seq<char>,
    t: Seq<char>,
)
    ensures
        attach_spec(attach_spec(ws, order, sid, cwd, t).0, attach_spec(ws, order, sid, cwd, t).1, sid, cwd, t)
            == attach_spec(ws, order, sid, cwd, t),
{
    let (ws1, o1) = attach_spec(ws, order, sid, cwd, t);
    let ps = ws_paths(ws);
    let i = index_of(ps, cwd);
    lemma_index_of(ps, cwd);
    lemma_index_of(ws_paths(ws1), cwd);
    let p = if i >= 0 { i } else { sorted_pos(ws_ids(ws), fresh_id(ws_ids(ws), recovered_base(ws.len()), 0), 0) };
    if i >= 0 {
        assert(ws_paths(ws1) =~= ps);
    } else {
        let ids = ws_ids(ws);
        let id = fresh_id(ids, recovered_base(ws.len()), 0);
        lemma_sorted_pos(ids, id, 0);
        assert(ws_paths(ws1) =~= ps.insert(p, cwd));
        assert(ws_paths(ws1)[p] == cwd);
        assert forall|j: int| 0 <= j < p implies ws_paths(ws1)[j] != cwd by {
            assert(ws_paths(ws1)[j] == ps[j]);
        }
    }
    assert(index_of(ws_paths(ws1), cwd) == p);
    let w = ws1[p];
    assert(w.session_ids.contains(sid)) by {
        if i >= 0 {
            if !ws[i].session_ids.contains(sid) {
                assert(w.session_ids[w.session_ids.len() - 1] == sid);
            }
        } else {
            assert(w.session_ids[w.session_ids.len() - 1] == sid);
        }
    }
    assert(touched(w, sid, t) == w);
    assert(ws1.update(p, touched(w, sid, t)) =~= ws1);
}

/// Moving `x` before an anchor `a` that is in the order (and is not `x`)
/// leaves `x` immediately in front of `a`; with no anchor, or one that is
/// not in the order, `x` goes last. Either way `x` occurs exactly once.
pub proof fn law_move_lands_right_before_the_anchor(order: Seq<Seq<char>>, x: Seq<char>, anchor: Option<Seq<char>>)
    ensures
        (anchor matches Some(a) && order.contains(a) && a != x) ==> {
            let r = moved_before(order, x, anchor);
            let i = index_of(r, anchor->0);
            &&& 1 <= i < r.len()
            &&& r[i - 1] == x
        },
        !(anchor matches Some(a) && order.contains(a) && a != x) ==> moved_before(order, x, anchor).last() == x,
        moved_before(order, x, anchor).contains(x),
        forall|j: int, k: int| 0 <= j < k < moved_before(order, x, anchor).len()
            && moved_before(order, x, anchor)[j] == x ==> moved_before(order, x, anchor)[k] != x,
{
    let rest = remove_all(order, x);
    let r = moved_before(order, x, anchor);
    lemma_remove_all_contains(order, x, x);
    let at = match anchor {
        Some(a) => if index_of(rest, a) >= 0 { index_of(rest, a) } else { rest.len() as int },
        None => rest.len() as int,
    };
    match anchor {
        Some(a) => {
            lemma_index_of(rest, a);
            lemma_remove_all_contains(order, x, a);
        },
        None => {},
    }
    assert(0 <= at <= rest.len());
    assert(r == rest.insert(at, x));
    assert(r[at] == x);
    assert forall|j: int| 0 <= j < r.len() && j != at implies r[j] != x by {
        if j < at {
            assert(r[j] == rest[j]);
        } else {
            assert(r[j] == rest[j - 1]);
        }
        assert(!rest.contains(x));
    }
    if anchor matches Some(a) && order.contains(a) && a != x {
        let a = anchor->0;
        assert(rest.contains(a));
        assert(index_of(rest, a) >= 0);
        assert(r[at + 1] == a);
        assert forall|j: int| 0 <= j < at + 1 implies r[j] != a by {
            if j < at {
                assert(r[j] == rest[j]);
            }
        }
        lemma_index_of(r, a);
        assert(index_of(r, a) == at + 1);
    } else {
        match anchor {
            Some(a) => {
                if order.contains(a) && a != x {
                } else if a == x {
                    assert(!rest.contains(a));
                    assert(index_of(rest, a) < 0);
                } else {
                    assert(!rest.contains(a));
                    if index_of(rest, a) >= 0 {
                        assert(rest.contains(a));
                    }
                }
            },
            None => {},
        }
        assert(at == rest.len());
    }
}

/// When no workspace has the session's directory, attaching recovers
/// exactly one workspace for it, under an id no workspace had, appended to
/// the order, titled by the directory and listing only the session.
pub proof fn law_attach_recovers_under_a_fresh_id(
    ws: Seq<WorkspaceView>,
    order: Seq<Seq<char>>,
    sid: Seq<char>,
    cwd: Seq<char>,
    t: Seq<char>,
)
    requires
        forall|i: int| 0 <= i < ws.len() ==> (#[trigger] ws[i]).path != cwd,
    ensures
        ({
            let (ws2, order2) = attach_spec(ws, order, sid, cwd, t);
            let id = order2.last();
            &&& ws2.len() == ws.len() + 1
            &&& order2.len() == order.len() + 1
            &&& order2.drop_last() == order
            &&& !ws_ids(ws).contains(id)
            &&& exists|p: int| 0 <= p < ws2.len() && ws2[p] == (WorkspaceView {
                workspace_id: id,
                path: cwd,
                title: workspace_title(cwd),
                session_ids: seq![sid],
                created_at: t,
                updated_at: t,
            }) && ws2.remove(p) == ws
        }),
{
    let ps = ws_paths(ws);
    lemma_index_of(ps, cwd);
    if index_of(ps, cwd) >= 0 {
        assert(ws[index_of(ps, cwd)].path == cwd);
    }
    let ids = ws_ids(ws);
    let id = fresh_id(ids, recovered_base(ws.len()), 0);
    lemma_fresh_id_is_fresh(ids, recovered_base(ws.len()), 0);
    let p = sorted_pos(ids, id, 0);
    lemma_sorted_pos(ids, id, 0);
    let (ws2, order2) = attach_spec(ws, order, sid, cwd, t);
    assert(order2.drop_last() =~= order);
    let w = WorkspaceView {
        workspace_id: id,
        path: cwd,
        title: workspace_title(cwd),
        session_ids: Seq::empty(),
        created_at: t,
        updated_at: t,
    };
    assert(!w.session_ids.contains(sid));
    assert(w.session_ids.push(sid) =~= seq![sid]);
    assert(ws2[p] == touched(w, sid, t));
    assert(ws2.remove(p) =~= ws);
}

} // verus!
