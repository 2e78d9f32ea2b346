//! Canonical data model shared by every backend: what one workspace and one
//! output look like to the bar.

use vstd::prelude::*;

verus! {

/// One workspace's render-relevant facts.
#[derive(Clone, Copy, Debug, PartialEq, Eq, Structural)]
pub struct WorkspaceInfo {
    pub has_windows: bool,
}

/// One physical display's bar-relevant facts, as an immutable snapshot.
#[derive(Clone, Debug)]
pub struct OutputInfo {
    /// Stable output identifier (monitor name); the entity's primary key.
    pub name: String,
    /// All workspaces assigned to this output, ordered ascending by
    /// compositor-assigned index.
    pub workspaces: Vec<WorkspaceInfo>,
    /// Position within `workspaces` of the focused workspace, if any.
    pub active_workspace_idx: Option<usize>,
    /// Whether the bar on this output should render transparently.
    pub show_transparent: bool,
}

/// Mathematical value of an [`OutputInfo`].
#[verifier::ext_equal]
pub ghost struct OutputInfoV {
    pub name: Seq<char>,
    pub workspaces: Seq<WorkspaceInfo>,
    pub active_workspace_idx: Option<int>,
    pub show_transparent: bool,
}

impl View for OutputInfo {
    type V = OutputInfoV;

    open spec fn view(&self) -> OutputInfoV {
        OutputInfoV {
            name: self.name@,
            workspaces: self.workspaces@,
            active_workspace_idx: match self.active_workspace_idx {
                Some(i) => Some(i as int),
                None => None,
            },
            show_transparent: self.show_transparent,
        }
    }
}

impl OutputInfoV {
    /// Structural invariant: the name is never empty, and the active index,
    /// if present, is a valid position in `workspaces`.
    pub open spec fn wf(self) -> bool {
        &&& self.name.len() > 0
        &&& match self.active_workspace_idx {
            Some(i) => 0 <= i < self.workspaces.len(),
            None => true,
        }
    }
}

impl OutputInfo {
    pub open spec fn wf(&self) -> bool {
        self@.wf()
    }

    /// Value equality of two snapshots; the emission-minimality checks of
    /// the diffing backend compare with this.
    pub fn same_view(&self, other: &OutputInfo) -> (r: bool)
        ensures
            r == (self@ == other@),
    {
        let names_eq = self.name == other.name;
        let ws_eq = workspace_lists_eq(&self.workspaces, &other.workspaces);
        let idx_eq = match (self.active_workspace_idx, other.active_workspace_idx) {
            (Some(i), Some(j)) => i == j,
            (None, None) => true,
            _ => false,
        };
        let trans_eq = self.show_transparent == other.show_transparent;
        let r = names_eq && ws_eq && idx_eq && trans_eq;
        proof {
            if r {
                assert(self@ =~= other@);
            }
        }
        r
    }
}

/// Element-wise equality of two workspace lists.
pub fn workspace_lists_eq(a: &Vec<WorkspaceInfo>, b: &Vec<WorkspaceInfo>) -> (r: bool)
    ensures
        r == (a@ == b@),
{
    if a.len() != b.len() {
        return false;
    }
    let mut i: usize = 0;
    while i < a.len()
        invariant
            0 <= i <= a.len(),
            a@.len() == b@.len(),
            forall|j: int| 0 <= j < i ==> a@[j] == b@[j],
        decreases a.len() - i,
    {
        if a[i] != b[i] {
            return false;
        }
        i += 1;
    }
    proof {
        assert(a@ =~= b@);
    }
    true
}

} // verus!
