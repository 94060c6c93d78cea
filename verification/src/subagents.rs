//! Navigation and authorization policy for direct child sessions.
use vstd::prelude::*;
use crate::text::{opt_view, owned, str_eq};

verus! {

#[derive(Clone, Debug, PartialEq, Eq)]
pub struct SubagentRecord {
    pub id: String,
    pub parent_id: Option<String>,
    pub title: Option<String>,
    pub running: bool,
}

pub struct RecordView {
    pub id: Seq<char>,
    pub parent_id: Option<Seq<char>>,
    pub title: Option<Seq<char>>,
    pub running: bool,
}

impl View for SubagentRecord {
    type V = RecordView;

    open spec fn view(&self) -> RecordView {
        RecordView { id: self.id@, parent_id: opt_view(self.parent_id), title: opt_view(self.title), running: self.running }
    }
}

/// The sessions the host knows, in id order, each once.
#[derive(Clone, Debug)]
pub struct SubagentSnapshot {
    pub sessions: Vec<SubagentRecord>,
}

impl SubagentSnapshot {
    pub open spec fn records(&self) -> Seq<RecordView> {
        self.sessions@.map_values(|r: SubagentRecord| r@)
    }
}

#[derive(Clone, Copy, Debug, PartialEq, Eq, Structural)]
pub enum ChildAuthorizationError {
    ParentUnavailable,
    ChildNotFound,
    Unauthorized,
}

/// One direct child as the navigation shows it.
#[derive(Clone, Debug)]
pub struct ChildEntry {
    pub id: String,
    pub running: bool,
    pub has_children: bool,
    /// The title, or the id when there is none.
    pub label: String,
}

/// The direct children of a session, and whether the session is known.
#[derive(Clone, Debug)]
pub struct ChildListing {
    pub entries: Vec<ChildEntry>,
    pub parent_available: bool,
}

pub struct EntryView {
    pub id: Seq<char>,
    pub running: bool,
    pub has_children: bool,
    pub label: Seq<char>,
}

pub open spec fn entry_views(v: Seq<ChildEntry>) -> Seq<EntryView> {
    v.map_values(|e: ChildEntry| EntryView { id: e.id@, running: e.running, has_children: e.has_children, label: e.label@ })
}

pub open spec fn known(rs: Seq<RecordView>, id: Seq<char>) -> bool {
    exists|i: int| 0 <= i < rs.len() && #[trigger] rs[i].id == id
}

pub open spec fn has_child(rs: Seq<RecordView>, id: Seq<char>) -> bool {
    exists|i: int| 0 <= i < rs.len() && #[trigger] rs[i].parent_id == Some(id)
}

/// The first record with id `id`.
pub open spec fn lookup(rs: Seq<RecordView>, id: Seq<char>) -> Option<RecordView>
    decreases rs.len(),
{
    if rs.len() == 0 {
        None
    } else if rs[0].id == id {
        Some(rs[0])
    } else {
        lookup(rs.drop_first(), id)
    }
}

pub open spec fn authorize_spec(rs: Seq<RecordView>, parent: Seq<char>, child: Seq<char>) -> Result<(), ChildAuthorizationError> {
    if !known(rs, parent) {
        Err(ChildAuthorizationError::ParentUnavailable)
    } else {
        match lookup(rs, child) {
            None => Err(ChildAuthorizationError::ChildNotFound),
            Some(r) => if r.parent_id == Some(parent) { Ok(()) } else { Err(ChildAuthorizationError::Unauthorized) },
        }
    }
}

/// The entries for the direct children of `parent` among `upto`, in order.
pub open spec fn children(all: Seq<RecordView>, upto: Seq<RecordView>, parent: Seq<char>) -> Seq<EntryView>
    decreases upto.len(),
{
    if upto.len() == 0 {
        Seq::empty()
    } else {
        let prev = children(all, upto.drop_last(), parent);
        let r = upto.last();
        if r.parent_id == Some(parent) {
            prev.push(EntryView {
                id: r.id,
                running: r.running,
                has_children: has_child(all, r.id),
                label: match r.title {
                    Some(t) => t,
                    None => r.id,
                },
            })
        } else {
            prev
        }
    }
}

pub proof fn lemma_lookup(rs: Seq<RecordView>, id: Seq<char>)
    ensures
        lookup(rs, id) is None <==> !known(rs, id),
        lookup(rs, id) matches Some(r) ==> r.id == id,
    decreases rs.len(),
{
    if rs.len() > 0 {
        lemma_lookup(rs.drop_first(), id);
        if rs[0].id != id {
            if known(rs, id) {
                let i = choose|i: int| 0 <= i < rs.len() && #[trigger] rs[i].id == id;
                assert(rs.drop_first()[i - 1].id == id);
            }
            if known(rs.drop_first(), id) {
                let i = choose|i: int| 0 <= i < rs.drop_first().len() && #[trigger] rs.drop_first()[i].id == id;
                assert(rs[i + 1].id == id);
            }
        } else {
            assert(rs[0].id == id);
        }
    }
}

fn opt_is(o: &Option<String>, s: &str) -> (r: bool)
    ensures
        r == (opt_view(*o) == Some(s@)),
{
    match o {
        Some(x) => str_eq(x.as_str(), s),
        None => false,
    }
}

pub struct SubagentProcessor;

impl SubagentProcessor {
    fn find(snapshot: &SubagentSnapshot, id: &str) -> (r: Option<usize>)
        ensures
            match r {
                Some(i) => i < snapshot.sessions@.len() && lookup(snapshot.records(), id@) == Some(snapshot.records()[i as int]),
                None => lookup(snapshot.records(), id@) is None,
            },
    {
        let ghost rs = snapshot.records();
        let mut i: usize = 0;
        assert(rs.skip(0) =~= rs);
        while i < snapshot.sessions.len()
            invariant
                rs == snapshot.records(),
                rs.len() == snapshot.sessions@.len(),
                i <= rs.len(),
                lookup(rs, id@) == lookup(rs.skip(i as int), id@),
            decreases snapshot.sessions.len() - i,
        {
            assert(rs[i as int] == snapshot.sessions@[i as int]@);
            assert(rs.skip(i as int)[0] == rs[i as int]);
            assert(rs.skip(i as int).drop_first() =~= rs.skip(i + 1));
            if str_eq(snapshot.sessions[i].id.as_str(), id) {
                return Some(i);
            }
            i = i + 1;
        }
        None
    }

    fn any_child_of(snapshot: &SubagentSnapshot, id: &str) -> (r: bool)
        ensures
            r == has_child(snapshot.records(), id@),
    {
        let ghost rs = snapshot.records();
        let mut i: usize = 0;
        while i < snapshot.sessions.len()
            invariant
                rs == snapshot.records(),
                rs.len() == snapshot.sessions@.len(),
                i <= rs.len(),
                forall|j: int| 0 <= j < i ==> rs[j].parent_id != Some(id@),
            decreases snapshot.sessions.len() - i,
        {
            assert(rs[i as int] == snapshot.sessions@[i as int]@);
            if opt_is(&snapshot.sessions[i].parent_id, id) {
                return true;
            }
            i = i + 1;
        }
        false
    }

    /// Whether `child` may be driven from `parent`: the parent must be
    /// known and the child must be a known direct child of it.
    pub fn authorize(snapshot: &SubagentSnapshot, parent: &str, child: &str) -> (r: Result<(), ChildAuthorizationError>)
        ensures
            r == authorize_spec(snapshot.records(), parent@, child@),
    {
        proof {
            lemma_lookup(snapshot.records(), parent@);
        }
        if Self::find(snapshot, parent).is_none() {
            return Err(ChildAuthorizationError::ParentUnavailable);
        }
        match Self::find(snapshot, child) {
            None => Err(ChildAuthorizationError::ChildNotFound),
            Some(i) => {
                assert(snapshot.records()[i as int] == snapshot.sessions@[i as int]@);
                if opt_is(&snapshot.sessions[i].parent_id, parent) {
                    Ok(())
                } else {
                    Err(ChildAuthorizationError::Unauthorized)
                }
            },
        }
    }

    /// The direct children of `parent`, in snapshot order.
    pub fn list(snapshot: &SubagentSnapshot, parent: &str) -> (r: ChildListing)
        ensures
            entry_views(r.entries@) == children(snapshot.records(), snapshot.records(), parent@),
            r.parent_available == known(snapshot.records(), parent@),
    {
        let ghost rs = snapshot.records();
        let mut entries: Vec<ChildEntry> = Vec::new();
        let mut i: usize = 0;
        while i < snapshot.sessions.len()
            invariant
                rs == snapshot.records(),
                rs.len() == snapshot.sessions@.len(),
                i <= rs.len(),
                entry_views(entries@) == children(rs, rs.take(i as int), parent@),
            decreases snapshot.sessions.len() - i,
        {
            let s = &snapshot.sessions[i];
            assert(rs[i as int] == s@);
            assert(rs.take(i + 1).drop_last() =~= rs.take(i as int));
            assert(rs.take(i + 1).last() == s@);
            if opt_is(&s.parent_id, parent) {
                let label = match &s.title {
                    Some(t) => owned(t.as_str()),
                    None => owned(s.id.as_str()),
                };
                let e = ChildEntry {
                    id: owned(s.id.as_str()),
                    running: s.running,
                    has_children: Self::any_child_of(snapshot, s.id.as_str()),
                    label,
                };
                let ghost before = entries@;
                entries.push(e);
                assert(entry_views(entries@) =~= entry_views(before).push(
                    EntryView { id: e.id@, running: e.running, has_children: e.has_children, label: e.label@ },
                ));
            }
            i = i + 1;
        }
        assert(rs.take(rs.len() as int) =~= rs);
        proof {
            lemma_lookup(rs, parent@);
        }
        let parent_available = Self::find(snapshot, parent).is_some();
        ChildListing { entries, parent_available }
    }
}

} // verus!
