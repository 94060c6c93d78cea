//! Choosing a session's model route: the reasoning effort and context
//! window a selection settles on, and when the route cannot take it.
use vstd::prelude::*;
use crate::text::str_eq;

verus! {

/// What the catalog says of a route: its default reasoning effort and the
/// largest context window it advertises.
#[derive(Clone, Debug, PartialEq, Eq)]
pub struct RouteCaps {
    pub default_effort: Option<String>,
    pub max_context_window: Option<u64>,
}

/// The selection a session switches to.
#[derive(Clone, Debug, PartialEq, Eq)]
pub struct PlannedSelection {
    pub provider: String,
    pub model: String,
    pub reasoning_effort: Option<String>,
    pub context_window_tokens: Option<u64>,
}

/// The chosen context window is zero, over the advertised maximum, or the
/// route advertises none.
#[derive(Clone, Debug, PartialEq, Eq)]
pub struct ModelUnavailable {
    pub provider: String,
    pub model: String,
    pub requested_context_window_tokens: u64,
    pub maximum_context_window_tokens: Option<u64>,
}

/// The window a selection settles on: the requested one, else the current
/// one when the route does not change, else the route's advertised maximum.
pub open spec fn chosen_window(requested: Option<u64>, same_route: bool, current: Option<u64>, caps: Option<RouteCaps>) -> Option<u64> {
    if requested is Some {
        requested
    } else if same_route && current is Some {
        current
    } else {
        match caps {
            Some(c) => c.max_context_window,
            None => None,
        }
    }
}

pub open spec fn advertised_max(caps: Option<RouteCaps>) -> Option<u64> {
    match caps {
        Some(c) => c.max_context_window,
        None => None,
    }
}

/// A chosen window fits when it is positive and at most the advertised
/// maximum.
pub open spec fn window_fits(w: u64, max: Option<u64>) -> bool {
    w > 0 && max is Some && w <= max->0
}

/// Settle a model selection of `provider`/`model` for a session currently on
/// `current_provider`/`current_model` with window `current_window`, given
/// the requested effort and window and the route's catalog entry, if any.
pub fn plan_model_selection(
    current_provider: &str,
    current_model: &str,
    current_window: Option<u64>,
    provider: String,
    model: String,
    effort: Option<String>,
    window: Option<u64>,
    caps: Option<RouteCaps>,
) -> (r: Result<PlannedSelection, ModelUnavailable>)
    ensures
        window is None && !(current_provider@ == provider@ && current_model@ == model@) ==> match r {
            Ok(s) => s.context_window_tokens == match caps {
                Some(c) => c.max_context_window,
                None => None,
            },
            Err(e) => Some(e.requested_context_window_tokens) == match caps {
                Some(c) => c.max_context_window,
                None => None,
            },
        },
        ({
            let same = current_provider@ == provider@ && current_model@ == model@;
            let w = chosen_window(window, same, current_window, caps);
            let effort_chosen = if effort is Some { effort } else {
                match caps {
                    Some(c) => c.default_effort,
                    None => None,
                }
            };
            if w is Some && !window_fits(w->0, advertised_max(caps)) {
                r == Err::<PlannedSelection, ModelUnavailable>(ModelUnavailable {
                    provider,
                    model,
                    requested_context_window_tokens: w->0,
                    maximum_context_window_tokens: advertised_max(caps),
                })
            } else {
                r == Ok::<PlannedSelection, ModelUnavailable>(PlannedSelection {
                    provider,
                    model,
                    reasoning_effort: effort_chosen,
                    context_window_tokens: w,
                })
            }
        }),
{
    let same = str_eq(current_provider, provider.as_str()) && str_eq(current_model, model.as_str());
    let (default_effort, max) = match caps {
        Some(c) => (c.default_effort, c.max_context_window),
        None => (None, None),
    };
    let reasoning_effort = match effort {
        Some(e) => Some(e),
        None => default_effort,
    };
    let chosen = match window {
        Some(w) => Some(w),
        None => if same && current_window.is_some() { current_window } else { max },
    };
    match chosen {
        Some(w) => {
            let fits = match max {
                Some(m) => w > 0 && w <= m,
                None => false,
            };
            if !fits {
                return Err(ModelUnavailable {
                    provider,
                    model,
                    requested_context_window_tokens: w,
                    maximum_context_window_tokens: max,
                });
            }
        },
        None => {},
    }
    Ok(PlannedSelection { provider, model, reasoning_effort, context_window_tokens: chosen })
}

/// A session moving to another route without asking for a window gets the
/// new route's advertised maximum, whatever window it had; staying on its
/// route keeps its window; an asked-for window always wins.
pub proof fn law_window_follows_the_route(requested: Option<u64>, same_route: bool, current: Option<u64>, caps: Option<RouteCaps>)
    ensures
        requested is None && !same_route ==> chosen_window(requested, same_route, current, caps) == match caps {
            Some(c) => c.max_context_window,
            None => None,
        },
        requested is None && same_route && current is Some ==> chosen_window(requested, same_route, current, caps) == current,
        requested is Some ==> chosen_window(requested, same_route, current, caps) == requested,
        forall|w: u64| window_fits(w, advertised_max(caps)) <==> (0 < w && (caps matches Some(c) && c.max_context_window matches Some(m) && w <= m)),
{
}

} // verus!
