//! Backend selection rule.
//!
//! At startup each compiled-in backend is probed once, outside this crate:
//! a version query for the callback-driven compositor, then socket-path
//! presence plus connect success for the socket-driven one.  The probe
//! results come back as two plain booleans and [`select_backend`] decides,
//! in that fixed priority order, which adapter runs; the first success
//! wins, no fallback or hot-swap afterwards.  When neither probe succeeds
//! the synchronizer is simply absent: the bar runs with no workspace data,
//! which is a supported mode, not an error, and the event stream around it
//! never emits.

use vstd::prelude::*;

verus! {

/// One of the two mutually exclusive compositor adapters.
#[derive(Clone, Copy, Debug, PartialEq, Eq, Structural)]
pub enum Backend {
    /// The callback-driven client that re-queries global state.
    Hyprland,
    /// The line-delimited JSON socket protocol, folded incrementally.
    Niri,
}

/// The selection rule as a value.
pub open spec fn selected_backend(hyprland_available: bool, niri_available: bool) -> Option<
    Backend,
> {
    if hyprland_available {
        Some(Backend::Hyprland)
    } else if niri_available {
        Some(Backend::Niri)
    } else {
        None
    }
}

/// Pick the backend from the two probe results, in fixed priority order:
/// the first that succeeded wins; `None` when neither did.
pub fn select_backend(hyprland_available: bool, niri_available: bool) -> (r: Option<Backend>)
    ensures
        r == selected_backend(hyprland_available, niri_available),
{
    if hyprland_available {
        Some(Backend::Hyprland)
    } else if niri_available {
        Some(Backend::Niri)
    } else {
        None
    }
}

/// When neither backend's detection succeeds, no adapter is selected, so
/// nothing ever feeds the synchronizer's stream.
pub proof fn lemma_no_backend_selected()
    ensures
        selected_backend(false, false) == None::<Backend>,
{
}

} // verus!
