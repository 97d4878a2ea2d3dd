//! The plain workspace list of the bar's first version: every workspace the
//! compositor reports, in the order it reports them.
use vstd::prelude::*;

use crate::hyprland::WorkspaceInfo;
use crate::Action;

verus! {

/// The workspaces shown.
pub struct OverviewData {
    pub workspaces: Vec<WorkspaceInfo>,
}

impl OverviewData {
    /// Nothing shown before the first report.
    pub fn new() -> (data: Self)
        ensures
            data.workspaces@.len() == 0,
    {
        OverviewData { workspaces: Vec::new() }
    }

    /// A report of the workspaces replaces those shown and rebuilds the
    /// list; without one nothing changes.
    pub fn handle_event(&mut self, reported: Option<Vec<WorkspaceInfo>>) -> (action: Action)
        ensures
            action.rebuild == reported is Some,
            final(self).workspaces@ == (match reported {
                Some(w) => w@,
                None => old(self).workspaces@,
            }),
    {
        match reported {
            Some(w) => {
                self.workspaces = w;
                Action { rebuild: true }
            },
            None => Action { rebuild: false },
        }
    }
}

} // verus!
