//! Decisions on a user's request to change a queued prompt: which change it
//! is, and when it is refused.
use vstd::prelude::*;
use crate::text::{owned, str_eq};

verus! {

/// The change a queue request makes to a pending prompt.
#[derive(Clone, Copy, Debug, PartialEq, Eq, Structural)]
pub enum QueueAction {
    /// Drop the prompt.
    Remove,
    /// Drop the prompt and admit it again as a steering message.
    Steer,
    /// Replace the prompt's text content.
    Edit,
}

/// Why a queue request is refused.
#[derive(Clone, Debug, PartialEq, Eq)]
pub enum QueueError {
    /// No pending prompt has this id any more.
    ItemNotFound { item_id: String },
    /// The item is runtime context, not an editable user prompt.
    ReadOnly { item_id: String },
    /// An edit came without a content array.
    EditNeedsContent,
    /// An edit may hold text blocks only.
    NonTextEdit,
    UnsupportedAction,
}

pub enum QueueErrorView {
    ItemNotFound(Seq<char>),
    ReadOnly(Seq<char>),
    EditNeedsContent,
    NonTextEdit,
    UnsupportedAction,
}

impl View for QueueError {
    type V = QueueErrorView;

    open spec fn view(&self) -> QueueErrorView {
        match self {
            QueueError::ItemNotFound { item_id } => QueueErrorView::ItemNotFound(item_id@),
            QueueError::ReadOnly { item_id } => QueueErrorView::ReadOnly(item_id@),
            QueueError::EditNeedsContent => QueueErrorView::EditNeedsContent,
            QueueError::NonTextEdit => QueueErrorView::NonTextEdit,
            QueueError::UnsupportedAction => QueueErrorView::UnsupportedAction,
        }
    }
}

pub open spec fn opt_view(o: Option<String>) -> Option<Seq<char>> {
    match o {
        Some(s) => Some(s@),
        None => None,
    }
}

/// Every block of an edit is a text block.
pub open spec fn all_text(types: Seq<Option<String>>) -> bool {
    forall|i: int| 0 <= i < types.len() ==> opt_view(#[trigger] types[i]) == Some("text"@)
}

/// The decision on a queue request. `item` is whether the named item is
/// pending and, if so, whether the user may change it; `edit_block_types`
/// is the type of each block of an edit's content, when it has a content
/// array.
pub open spec fn queue_plan_spec(
    item: Option<bool>,
    item_id: Seq<char>,
    kind: Seq<char>,
    edit_block_types: Option<Seq<Option<String>>>,
) -> Result<QueueAction, QueueErrorView> {
    match item {
        None => Err(QueueErrorView::ItemNotFound(item_id)),
        Some(mutable) => if !mutable {
            Err(QueueErrorView::ReadOnly(item_id))
        } else if kind == "remove"@ {
            Ok(QueueAction::Remove)
        } else if kind == "steer"@ {
            Ok(QueueAction::Steer)
        } else if kind == "edit"@ {
            match edit_block_types {
                None => Err(QueueErrorView::EditNeedsContent),
                Some(types) => if all_text(types) { Ok(QueueAction::Edit) } else { Err(QueueErrorView::NonTextEdit) },
            }
        } else {
            Err(QueueErrorView::UnsupportedAction)
        },
    }
}

/// Decide a user's queue request on item `item_id`.
pub fn plan_queue_update(
    item: Option<bool>,
    item_id: &str,
    kind: &str,
    edit_block_types: Option<Vec<Option<String>>>,
) -> (r: Result<QueueAction, QueueError>)
    ensures
        (match r {
            Ok(a) => Ok::<QueueAction, QueueErrorView>(a),
            Err(e) => Err(e@),
        }) == queue_plan_spec(item, item_id@, kind@, match edit_block_types {
            Some(v) => Some(v@),
            None => None,
        }),
{
    match item {
        None => {
            return Err(QueueError::ItemNotFound { item_id: owned(item_id) });
        },
        Some(mutable) => {
            if !mutable {
                return Err(QueueError::ReadOnly { item_id: owned(item_id) });
            }
        },
    }
    if str_eq(kind, "remove") {
        return Ok(QueueAction::Remove);
    }
    if str_eq(kind, "steer") {
        return Ok(QueueAction::Steer);
    }
    if !str_eq(kind, "edit") {
        return Err(QueueError::UnsupportedAction);
    }
    match edit_block_types {
        None => Err(QueueError::EditNeedsContent),
        Some(types) => {
            let mut i: usize = 0;
            while i < types.len()
                invariant
                    edit_block_types == Some(types),
                    item == Some(true),
                    kind@ == "edit"@,
                    kind@ != "remove"@,
                    kind@ != "steer"@,
                    i <= types@.len(),
                    forall|j: int| 0 <= j < i ==> opt_view(#[trigger] types@[j]) == Some("text"@),
                decreases types.len() - i,
            {
                let text = match &types[i] {
                    Some(t) => str_eq(t.as_str(), "text"),
                    None => false,
                };
                if !text {
                    assert(opt_view(types@[i as int]) != Some("text"@));
                    assert(!all_text(types@));
                    return Err(QueueError::NonTextEdit);
                }
                i = i + 1;
            }
            Ok(QueueAction::Edit)
        },
    }
}

/// A request on a prompt that is no longer pending is answered not-found,
/// one on runtime context read-only, whatever it asks; on an editable
/// prompt, remove and steer need nothing more, and an edit is taken
/// exactly when every block is text.
pub proof fn law_queue_requests(item: Option<bool>, item_id: Seq<char>, kind: Seq<char>, blocks: Option<Seq<Option<String>>>)
    ensures
        item is None ==> queue_plan_spec(item, item_id, kind, blocks) == Err::<QueueAction, QueueErrorView>(QueueErrorView::ItemNotFound(item_id)),
        item == Some(false) ==> queue_plan_spec(item, item_id, kind, blocks) == Err::<QueueAction, QueueErrorView>(QueueErrorView::ReadOnly(item_id)),
        item == Some(true) && kind == "remove"@ ==> queue_plan_spec(item, item_id, kind, blocks) == Ok::<QueueAction, QueueErrorView>(QueueAction::Remove),
        item == Some(true) && kind == "steer"@ ==> queue_plan_spec(item, item_id, kind, blocks) == Ok::<QueueAction, QueueErrorView>(QueueAction::Steer),
        item == Some(true) && kind == "edit"@ ==> (
            queue_plan_spec(item, item_id, kind, blocks) == Ok::<QueueAction, QueueErrorView>(QueueAction::Edit)
                <==> (blocks is Some && forall|i: int| 0 <= i < blocks->0.len() ==> (#[trigger] blocks->0[i]) is Some && blocks->0[i]->0@ == "text"@)
        ),
{
    reveal_strlit("remove");
    reveal_strlit("steer");
    reveal_strlit("edit");
    assert("remove"@.len() != "steer"@.len() && "remove"@.len() != "edit"@.len() && "steer"@.len() != "edit"@.len());
    if item == Some(true) && kind == "edit"@ {
        match blocks {
            Some(b) => {
                assert(all_text(b) <==> forall|i: int| 0 <= i < b.len() ==> (#[trigger] b[i]) is Some && b[i]->0@ == "text"@) by {
                    assert forall|i: int| 0 <= i < b.len() implies (opt_view(#[trigger] b[i]) == Some("text"@) <==> (b[i] is Some && b[i]->0@ == "text"@)) by {}
                }
            },
            None => {},
        }
    }
}

} // verus!
