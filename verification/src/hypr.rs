//! Full recompute for the callback-driven backend.
//!
//! That backend's client library reports only "some workspace changed", so
//! on every callback the adapter re-queries the compositor's full workspace
//! and monitor state and derives one output's snapshot from scratch.  The
//! queries happen outside this crate; [`make_output_info`] is the derivation
//! itself, from plain query results to one [`OutputInfo`].

use vstd::prelude::*;

use crate::model::{OutputInfo, OutputInfoV, WorkspaceInfo};

verus! {

/// One workspace as the compositor's query reports it.
#[derive(Clone, Copy, Debug, PartialEq, Eq, Structural)]
pub struct HyprWorkspace {
    /// Compositor-assigned workspace id.
    pub id: i32,
    /// Id of the monitor the workspace is on.
    pub monitor_id: i128,
    /// Number of windows in the workspace.
    pub windows: u16,
}

/// One monitor as the compositor's query reports it.
#[derive(Clone, Debug)]
pub struct HyprMonitor {
    /// Compositor-assigned monitor id.
    pub id: i128,
    /// The monitor's name: the output identifier the bar keys on.
    pub name: String,
    /// Id of the monitor's currently active workspace.
    pub active_workspace_id: i32,
}

/// Mathematical value of a [`HyprMonitor`].
#[verifier::ext_equal]
pub ghost struct HyprMonitorV {
    pub id: i128,
    pub name: Seq<char>,
    pub active_workspace_id: i32,
}

impl View for HyprMonitor {
    type V = HyprMonitorV;

    open spec fn view(&self) -> HyprMonitorV {
        HyprMonitorV { id: self.id, name: self.name@, active_workspace_id: self.active_workspace_id }
    }
}

/// View of a sequence of monitors.
pub open spec fn mon_view(v: Seq<HyprMonitor>) -> Seq<HyprMonitorV> {
    v.map_values(|m: HyprMonitor| m@)
}

/// First workspace with the given id, if any.
pub open spec fn hypr_find_ws(s: Seq<HyprWorkspace>, id: i32) -> Option<HyprWorkspace>
    decreases s.len(),
{
    if s.len() == 0 {
        None
    } else if s.first().id == id {
        Some(s.first())
    } else {
        hypr_find_ws(s.drop_first(), id)
    }
}

/// First monitor with the given id, if any.
pub open spec fn hypr_find_monitor(s: Seq<HyprMonitorV>, id: i128) -> Option<HyprMonitorV>
    decreases s.len(),
{
    if s.len() == 0 {
        None
    } else if s.first().id == id {
        Some(s.first())
    } else {
        hypr_find_monitor(s.drop_first(), id)
    }
}

/// `w` inserted into `s` behind every workspace whose id does not exceed
/// `w`'s: insertion into a sequence sorted ascending by workspace id.
pub open spec fn hypr_insert_by_id(s: Seq<HyprWorkspace>, w: HyprWorkspace) -> Seq<HyprWorkspace>
    decreases s.len(),
{
    if s.len() == 0 {
        seq![w]
    } else if s.last().id <= w.id {
        s.push(w)
    } else {
        hypr_insert_by_id(s.drop_last(), w).push(s.last())
    }
}

/// The workspaces of `s` on monitor `monitor_id`, sorted ascending by
/// workspace id.
pub open spec fn hypr_grouped(s: Seq<HyprWorkspace>, monitor_id: i128) -> Seq<HyprWorkspace>
    decreases s.len(),
{
    if s.len() == 0 {
        Seq::empty()
    } else {
        let rest = hypr_grouped(s.drop_last(), monitor_id);
        if s.last().monitor_id == monitor_id {
            hypr_insert_by_id(rest, s.last())
        } else {
            rest
        }
    }
}

/// Ascending order by workspace id.
pub open spec fn hypr_sorted_by_id(s: Seq<HyprWorkspace>) -> bool {
    forall|i: int, j: int| 0 <= i < j < s.len() ==> s[i].id <= s[j].id
}

/// Position of the first workspace with the given id, if any.
pub open spec fn hypr_position_of(g: Seq<HyprWorkspace>, id: i32) -> Option<int>
    decreases g.len(),
{
    if g.len() == 0 {
        None
    } else if g.first().id == id {
        Some(0int)
    } else {
        match hypr_position_of(g.drop_first(), id) {
            Some(i) => Some(i + 1),
            None => None,
        }
    }
}

/// The snapshot the callback backend derives: resolve the changed
/// workspace, resolve its monitor, group and sort that monitor's
/// workspaces, and read the active position off the group.  `None` when
/// the workspace or monitor is gone by query time (the event raced a
/// removal and is dropped).
pub open spec fn hypr_info(
    wss: Seq<HyprWorkspace>,
    mons: Seq<HyprMonitorV>,
    workspace_id: i32,
) -> Option<OutputInfoV> {
    match hypr_find_ws(wss, workspace_id) {
        None => None,
        Some(w) => match hypr_find_monitor(mons, w.monitor_id) {
            None => None,
            Some(m) => {
                let g = hypr_grouped(wss, m.id);
                let active = hypr_position_of(g, m.active_workspace_id);
                Some(
                    OutputInfoV {
                        name: m.name,
                        workspaces: g.map_values(
                            |x: HyprWorkspace| WorkspaceInfo { has_windows: x.windows > 0 },
                        ),
                        active_workspace_idx: active,
                        show_transparent: match active {
                            Some(i) => g[i].windows == 0,
                            None => false,
                        },
                    },
                )
            },
        },
    }
}

// ---------------------------------------------------------------------------
// Characterizations and shape lemmas.
// ---------------------------------------------------------------------------

/// What `hypr_find_ws` returns, in terms of positions.
proof fn lemma_hypr_find_ws_char(s: Seq<HyprWorkspace>, id: i32)
    ensures
        match hypr_find_ws(s, id) {
            None => forall|j: int| 0 <= j < s.len() ==> s[j].id != id,
            Some(w) => exists|k: int|
                0 <= k < s.len() && s[k] == w && w.id == id && (forall|j: int|
                    0 <= j < k ==> s[j].id != id),
        },
    decreases s.len(),
{
    if s.len() > 0 && s.first().id != id {
        let rest = s.drop_first();
        lemma_hypr_find_ws_char(rest, id);
        assert(forall|j: int| 0 <= j < rest.len() ==> rest[j] == s[j + 1]);
        match hypr_find_ws(rest, id) {
            None => {
                assert forall|j: int| 0 <= j < s.len() implies s[j].id != id by {
                    if j > 0 {
                        assert(rest[j - 1] == s[j]);
                    }
                }
            },
            Some(w) => {
                let k = choose|k: int|
                    0 <= k < rest.len() && rest[k] == w && w.id == id && (forall|j: int|
                        0 <= j < k ==> rest[j].id != id);
                assert(s[k + 1] == w);
                assert forall|j: int| 0 <= j < k + 1 implies s[j].id != id by {
                    if j > 0 {
                        assert(rest[j - 1] == s[j]);
                    }
                }
            },
        }
    }
}

/// `hypr_find_ws` at a known first position.
proof fn lemma_hypr_find_ws_at(s: Seq<HyprWorkspace>, id: i32, k: int)
    requires
        0 <= k < s.len(),
        s[k].id == id,
        forall|j: int| 0 <= j < k ==> s[j].id != id,
    ensures
        hypr_find_ws(s, id) == Some(s[k]),
    decreases s.len(),
{
    if k > 0 {
        let rest = s.drop_first();
        assert(forall|j: int| 0 <= j < rest.len() ==> rest[j] == s[j + 1]);
        lemma_hypr_find_ws_at(rest, id, k - 1);
    }
}

/// `hypr_find_ws` when no workspace has the id.
proof fn lemma_hypr_find_ws_none(s: Seq<HyprWorkspace>, id: i32)
    requires
        forall|j: int| 0 <= j < s.len() ==> s[j].id != id,
    ensures
        hypr_find_ws(s, id) == None::<HyprWorkspace>,
    decreases s.len(),
{
    if s.len() > 0 {
        let rest = s.drop_first();
        assert(forall|j: int| 0 <= j < rest.len() ==> rest[j] == s[j + 1]);
        lemma_hypr_find_ws_none(rest, id);
    }
}

/// `hypr_find_monitor` at a known first position.
proof fn lemma_hypr_find_monitor_at(s: Seq<HyprMonitorV>, id: i128, k: int)
    requires
        0 <= k < s.len(),
        s[k].id == id,
        forall|j: int| 0 <= j < k ==> s[j].id != id,
    ensures
        hypr_find_monitor(s, id) == Some(s[k]),
    decreases s.len(),
{
    if k > 0 {
        let rest = s.drop_first();
        assert(forall|j: int| 0 <= j < rest.len() ==> rest[j] == s[j + 1]);
        lemma_hypr_find_monitor_at(rest, id, k - 1);
    }
}

/// `hypr_find_monitor` when no monitor has the id.
proof fn lemma_hypr_find_monitor_none(s: Seq<HyprMonitorV>, id: i128)
    requires
        forall|j: int| 0 <= j < s.len() ==> s[j].id != id,
    ensures
        hypr_find_monitor(s, id) == None::<HyprMonitorV>,
    decreases s.len(),
{
    if s.len() > 0 {
        let rest = s.drop_first();
        assert(forall|j: int| 0 <= j < rest.len() ==> rest[j] == s[j + 1]);
        lemma_hypr_find_monitor_none(rest, id);
    }
}

/// `hypr_position_of` at a known first position.
proof fn lemma_hypr_position_at(g: Seq<HyprWorkspace>, id: i32, k: int)
    requires
        0 <= k < g.len(),
        g[k].id == id,
        forall|j: int| 0 <= j < k ==> g[j].id != id,
    ensures
        hypr_position_of(g, id) == Some(k),
    decreases g.len(),
{
    if k > 0 {
        let rest = g.drop_first();
        assert(forall|j: int| 0 <= j < rest.len() ==> rest[j] == g[j + 1]);
        lemma_hypr_position_at(rest, id, k - 1);
    }
}

/// `hypr_position_of` when no workspace has the id.
proof fn lemma_hypr_position_none(g: Seq<HyprWorkspace>, id: i32)
    requires
        forall|j: int| 0 <= j < g.len() ==> g[j].id != id,
    ensures
        hypr_position_of(g, id) == None::<int>,
    decreases g.len(),
{
    if g.len() > 0 {
        let rest = g.drop_first();
        assert(forall|j: int| 0 <= j < rest.len() ==> rest[j] == g[j + 1]);
        lemma_hypr_position_none(rest, id);
    }
}

/// Insertion keeps the list sorted and adds exactly the new workspace.
proof fn lemma_hypr_insert_shape(s: Seq<HyprWorkspace>, w: HyprWorkspace)
    requires
        hypr_sorted_by_id(s),
    ensures
        hypr_sorted_by_id(hypr_insert_by_id(s, w)),
        hypr_insert_by_id(s, w).len() == s.len() + 1,
        forall|i: int|
            0 <= i < hypr_insert_by_id(s, w).len() ==> (hypr_insert_by_id(s, w)[i] == w
                || s.contains(hypr_insert_by_id(s, w)[i])),
    decreases s.len(),
{
    let r = hypr_insert_by_id(s, w);
    if s.len() == 0 {
        assert(r =~= seq![w]);
    } else if s.last().id <= w.id {
        assert(r == s.push(w));
        assert forall|i: int, j: int| 0 <= i < j < r.len() implies r[i].id <= r[j].id by {
            if j == r.len() - 1 {
                if i < s.len() - 1 {
                    assert(s[i].id <= s[s.len() - 1].id);
                }
            }
        }
        assert forall|i: int| 0 <= i < r.len() implies (r[i] == w || s.contains(r[i])) by {
            if i < s.len() {
                assert(r[i] == s[i]);
            }
        }
    } else {
        let d = s.drop_last();
        assert forall|i: int, j: int| 0 <= i < j < d.len() implies d[i].id <= d[j].id by {
            assert(d[i] == s[i]);
            assert(d[j] == s[j]);
        }
        lemma_hypr_insert_shape(d, w);
        let r0 = hypr_insert_by_id(d, w);
        assert(r == r0.push(s.last()));
        assert forall|i: int, j: int| 0 <= i < j < r.len() implies r[i].id <= r[j].id by {
            if j == r.len() - 1 {
                assert(r[i] == r0[i]);
                if r0[i] == w {
                    assert(w.id <= s.last().id);
                } else {
                    let m = choose|m: int| 0 <= m < d.len() && d[m] == r0[i];
                    assert(s[m].id <= s[s.len() - 1].id);
                }
            } else {
                assert(r[i] == r0[i]);
                assert(r[j] == r0[j]);
            }
        }
        assert forall|i: int| 0 <= i < r.len() implies (r[i] == w || s.contains(r[i])) by {
            if i < r0.len() {
                assert(r[i] == r0[i]);
                if r0[i] != w {
                    let m = choose|m: int| 0 <= m < d.len() && d[m] == r0[i];
                    assert(s[m] == r0[i]);
                }
            } else {
                assert(r[i] == s[s.len() - 1]);
            }
        }
    }
}

/// Every monitor group is sorted ascending by workspace id and consists
/// exactly of that monitor's workspaces.
pub proof fn lemma_hypr_grouped_shape(s: Seq<HyprWorkspace>, monitor_id: i128)
    ensures
        hypr_sorted_by_id(hypr_grouped(s, monitor_id)),
        forall|i: int|
            0 <= i < hypr_grouped(s, monitor_id).len() ==> (s.contains(
                #[trigger] hypr_grouped(s, monitor_id)[i],
            ) && hypr_grouped(s, monitor_id)[i].monitor_id == monitor_id),
    decreases s.len(),
{
    let g = hypr_grouped(s, monitor_id);
    if s.len() > 0 {
        let d = s.drop_last();
        lemma_hypr_grouped_shape(d, monitor_id);
        let rest = hypr_grouped(d, monitor_id);
        assert forall|i: int| 0 <= i < rest.len() implies (s.contains(rest[i]) && rest[i].monitor_id
            == monitor_id) by {
            let m = choose|m: int| 0 <= m < d.len() && d[m] == rest[i];
            assert(s[m] == rest[i]);
        }
        if s.last().monitor_id == monitor_id {
            lemma_hypr_insert_shape(rest, s.last());
            assert(s[s.len() - 1] == s.last());
            assert forall|i: int| 0 <= i < g.len() implies (s.contains(#[trigger] g[i])
                && g[i].monitor_id == monitor_id) by {
                if g[i] != s.last() {
                    assert(rest.contains(g[i]));
                    let m = choose|m: int| 0 <= m < rest.len() && rest[m] == g[i];
                }
            }
        }
    }
}

/// Every snapshot the recompute derives is well formed, provided the
/// compositor names its monitors with nonempty names: the snapshot's name
/// is nonempty and its active index, if present, is a valid position in
/// its workspace list.
pub proof fn lemma_hypr_info_wf(wss: Seq<HyprWorkspace>, mons: Seq<HyprMonitorV>, workspace_id: i32)
    requires
        forall|i: int| 0 <= i < mons.len() ==> (#[trigger] mons[i]).name.len() > 0,
    ensures
        match hypr_info(wss, mons, workspace_id) {
            Some(info) => info.wf(),
            None => true,
        },
{
    match hypr_find_ws(wss, workspace_id) {
        None => {},
        Some(w) => {
            lemma_hypr_find_monitor_in(mons, w.monitor_id);
            match hypr_find_monitor(mons, w.monitor_id) {
                None => {},
                Some(m) => {
                    let g = hypr_grouped(wss, m.id);
                    lemma_hypr_position_char(g, m.active_workspace_id);
                },
            }
        },
    }
}

/// A found monitor is one of the queried monitors.
proof fn lemma_hypr_find_monitor_in(s: Seq<HyprMonitorV>, id: i128)
    ensures
        match hypr_find_monitor(s, id) {
            None => true,
            Some(m) => s.contains(m),
        },
    decreases s.len(),
{
    if s.len() > 0 && s.first().id != id {
        let rest = s.drop_first();
        lemma_hypr_find_monitor_in(rest, id);
        match hypr_find_monitor(rest, id) {
            None => {},
            Some(m) => {
                let k = choose|k: int| 0 <= k < rest.len() && rest[k] == m;
                assert(s[k + 1] == m);
            },
        }
    }
}

/// A found position is a valid position.
proof fn lemma_hypr_position_char(g: Seq<HyprWorkspace>, id: i32)
    ensures
        match hypr_position_of(g, id) {
            None => true,
            Some(i) => 0 <= i < g.len(),
        },
    decreases g.len(),
{
    if g.len() > 0 && g.first().id != id {
        lemma_hypr_position_char(g.drop_first(), id);
    }
}

// ---------------------------------------------------------------------------
// The recompute itself.
// ---------------------------------------------------------------------------

/// Position of the first workspace with this id, if any.
fn hypr_find_ws_index(wss: &Vec<HyprWorkspace>, id: i32) -> (r: Option<usize>)
    ensures
        match r {
            Some(k) => 0 <= k < wss@.len() && wss@[k as int].id == id && hypr_find_ws(wss@, id)
                == Some(wss@[k as int]),
            None => hypr_find_ws(wss@, id) == None::<HyprWorkspace>,
        },
{
    let mut i: usize = 0;
    while i < wss.len()
        invariant
            0 <= i <= wss@.len(),
            forall|j: int| 0 <= j < i ==> wss@[j].id != id,
        decreases wss@.len() - i,
    {
        if wss[i].id == id {
            proof {
                lemma_hypr_find_ws_at(wss@, id, i as int);
            }
            return Some(i);
        }
        i += 1;
    }
    proof {
        lemma_hypr_find_ws_none(wss@, id);
    }
    None
}

/// Position of the first monitor with this id, if any.
fn hypr_find_monitor_index(mons: &Vec<HyprMonitor>, id: i128) -> (r: Option<usize>)
    ensures
        match r {
            Some(k) => 0 <= k < mons@.len() && mons@[k as int]@.id == id && hypr_find_monitor(
                mon_view(mons@),
                id,
            ) == Some(mons@[k as int]@),
            None => hypr_find_monitor(mon_view(mons@), id) == None::<HyprMonitorV>,
        },
{
    let ghost mv = mon_view(mons@);
    let mut i: usize = 0;
    while i < mons.len()
        invariant
            0 <= i <= mons@.len(),
            mv == mon_view(mons@),
            forall|j: int| 0 <= j < i ==> mv[j].id != id,
        decreases mons@.len() - i,
    {
        if mons[i].id == id {
            proof {
                assert(mv[i as int] == mons@[i as int]@);
                lemma_hypr_find_monitor_at(mv, id, i as int);
            }
            return Some(i);
        }
        i += 1;
    }
    proof {
        lemma_hypr_find_monitor_none(mv, id);
    }
    None
}

/// The workspaces of monitor `monitor_id`, sorted ascending by id.
fn hypr_build_group(wss: &Vec<HyprWorkspace>, monitor_id: i128) -> (g: Vec<HyprWorkspace>)
    ensures
        g@ == hypr_grouped(wss@, monitor_id),
{
    let mut g: Vec<HyprWorkspace> = Vec::new();
    let mut i: usize = 0;
    proof {
        assert(wss@.take(0) =~= Seq::<HyprWorkspace>::empty());
        assert(g@ =~= Seq::<HyprWorkspace>::empty());
    }
    while i < wss.len()
        invariant
            0 <= i <= wss@.len(),
            g@ == hypr_grouped(wss@.take(i as int), monitor_id),
        decreases wss@.len() - i,
    {
        proof {
            assert(wss@.take(i as int + 1).drop_last() =~= wss@.take(i as int));
            assert(wss@.take(i as int + 1).last() == wss@[i as int]);
        }
        if wss[i].monitor_id == monitor_id {
            g = hypr_insert_sorted(g, wss[i]);
        }
        i += 1;
    }
    proof {
        assert(wss@.take(wss@.len() as int) =~= wss@);
    }
    g
}

/// Insertion into a list kept sorted ascending by workspace id.
fn hypr_insert_sorted(v: Vec<HyprWorkspace>, w: HyprWorkspace) -> (r: Vec<HyprWorkspace>)
    ensures
        r@ == hypr_insert_by_id(v@, w),
    decreases v@.len(),
{
    let ghost v0 = v@;
    let mut v = v;
    if v.len() == 0 {
        let mut r: Vec<HyprWorkspace> = Vec::new();
        r.push(w);
        proof {
            assert(r@ =~= seq![w]);
        }
        r
    } else if v[v.len() - 1].id <= w.id {
        v.push(w);
        v
    } else {
        let lst = v.pop().unwrap();
        proof {
            assert(v@ =~= v0.drop_last());
        }
        let mut r = hypr_insert_sorted(v, w);
        r.push(lst);
        proof {
            assert(r@ =~= hypr_insert_by_id(v0.drop_last(), w).push(v0.last()));
        }
        r
    }
}

/// Derive one output's snapshot from the compositor's full workspace and
/// monitor query results, for the workspace the event named.  `None`
/// exactly when that workspace, or its monitor, no longer exists: the
/// event is dropped silently.
pub fn make_output_info(
    workspace_id: i32,
    workspaces: &Vec<HyprWorkspace>,
    monitors: &Vec<HyprMonitor>,
) -> (r: Option<OutputInfo>)
    ensures
        match r {
            Some(info) => hypr_info(workspaces@, mon_view(monitors@), workspace_id) == Some(info@),
            None => hypr_info(workspaces@, mon_view(monitors@), workspace_id) == None::<OutputInfoV>,
        },
{
    let wk = match hypr_find_ws_index(workspaces, workspace_id) {
        Some(k) => k,
        None => {
            return None;
        },
    };
    let mk = match hypr_find_monitor_index(monitors, workspaces[wk].monitor_id) {
        Some(k) => k,
        None => {
            return None;
        },
    };
    let monitor = &monitors[mk];
    let g = hypr_build_group(workspaces, monitor.id);
    let ghost gv = hypr_grouped(workspaces@, monitor@.id);
    let mut ws: Vec<WorkspaceInfo> = Vec::new();
    let mut active_idx: Option<usize> = None;
    let mut i: usize = 0;
    proof {
        assert(gv.take(0).map_values(|x: HyprWorkspace| WorkspaceInfo { has_windows: x.windows > 0 })
            =~= Seq::<WorkspaceInfo>::empty());
    }
    while i < g.len()
        invariant
            0 <= i <= g@.len(),
            g@ == gv,
            ws@ == gv.take(i as int).map_values(
                |x: HyprWorkspace| WorkspaceInfo { has_windows: x.windows > 0 },
            ),
            match active_idx {
                None => forall|k: int| 0 <= k < i ==> gv[k].id != monitor@.active_workspace_id,
                Some(a) => 0 <= a < i && gv[a as int].id == monitor@.active_workspace_id && (
                forall|k: int| 0 <= k < a ==> gv[k].id != monitor@.active_workspace_id),
            },
        decreases g@.len() - i,
    {
        proof {
            assert(gv.take(i as int + 1).map_values(
                |x: HyprWorkspace| WorkspaceInfo { has_windows: x.windows > 0 },
            ) =~= gv.take(i as int).map_values(
                |x: HyprWorkspace| WorkspaceInfo { has_windows: x.windows > 0 },
            ).push(WorkspaceInfo { has_windows: gv[i as int].windows > 0 }));
        }
        ws.push(WorkspaceInfo { has_windows: g[i].windows > 0 });
        if active_idx.is_none() && g[i].id == monitor.active_workspace_id {
            active_idx = Some(i);
        }
        i += 1;
    }
    proof {
        assert(gv.take(gv.len() as int) =~= gv);
        match active_idx {
            None => lemma_hypr_position_none(gv, monitor@.active_workspace_id),
            Some(a) => lemma_hypr_position_at(gv, monitor@.active_workspace_id, a as int),
        }
    }
    let show_transparent = match active_idx {
        Some(a) => g[a].windows == 0,
        None => false,
    };
    let r = OutputInfo {
        name: monitor.name.clone(),
        workspaces: ws,
        active_workspace_idx: active_idx,
        show_transparent,
    };
    proof {
        assert(r@ =~= hypr_info(workspaces@, mon_view(monitors@), workspace_id).unwrap());
    }
    Some(r)
}

} // verus!
