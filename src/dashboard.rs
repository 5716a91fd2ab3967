//! State kinds of the dashboard that hosts the topology view.
use vstd::prelude::*;

verus! {

/// Which screen of the dashboard is active.
#[derive(Clone, Copy, Debug, PartialEq, Eq, Structural)]
pub enum Mode {
    Overview,
    DeviceDetail,
    ClientDetail,
    Help,
}

/// The kind of a modal dialog.
#[derive(Clone, Copy, Debug, PartialEq, Eq, Structural)]
pub enum DialogType {
    Confirmation,
    Message,
    Error,
}

/// How a table is sorted.
#[derive(Clone, Copy, Debug, PartialEq, Eq, Structural)]
pub enum SortOrder {
    Ascending,
    Descending,
    /// Kept in the order the controller reported.
    Unsorted,
}

} // verus!
