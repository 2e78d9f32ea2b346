//! Incremental, diffing state fold for the socket-driven backend.
//!
//! The adapter's worker thread reads newline-delimited JSON event records
//! from the compositor socket, turns each into a plain [`DesktopEvent`], and
//! feeds it to [`NiriState::apply`], which returns the (possibly empty) list
//! of [`OutputInfo`] snapshots to publish.  The fold keeps a private model:
//! the last-known workspace records, the last-emitted snapshot per output,
//! and the compositor-wide overview flag.  Narrow events patch one output
//! and emit only on an actual value change; a full topology event clears and
//! rebuilds everything and emits every output unconditionally.

use vstd::prelude::*;

use crate::model::{OutputInfo, OutputInfoV, WorkspaceInfo};

verus! {

/// One workspace record as the compositor reports it: the per-workspace
/// facts the fold keeps.
#[derive(Clone, Debug)]
pub struct NiriWorkspace {
    /// Opaque compositor-assigned id, stable for the workspace's lifetime.
    pub id: u64,
    /// Compositor-assigned position of the workspace on its output.
    pub idx: u8,
    /// Name of the output the workspace is on; `None` while no output is
    /// connected.
    pub output: Option<String>,
    /// Whether this workspace is the active one on its output.
    pub is_active: bool,
    /// Whether the workspace currently has an active window.
    pub has_active_window: bool,
}

/// Mathematical value of a [`NiriWorkspace`].
#[verifier::ext_equal]
pub ghost struct NiriWorkspaceV {
    pub id: u64,
    pub idx: u8,
    pub output: Option<Seq<char>>,
    pub is_active: bool,
    pub has_active_window: bool,
}

impl View for NiriWorkspace {
    type V = NiriWorkspaceV;

    open spec fn view(&self) -> NiriWorkspaceV {
        NiriWorkspaceV {
            id: self.id,
            idx: self.idx,
            output: match self.output {
                Some(s) => Some(s@),
                None => None,
            },
            is_active: self.is_active,
            has_active_window: self.has_active_window,
        }
    }
}

/// One event record of the compositor's stream, reduced to plain values.
/// Every kind the fold does not care about arrives as [`DesktopEvent::Other`].
#[derive(Debug)]
pub enum DesktopEvent {
    /// Full topology payload: the complete new workspace configuration,
    /// replacing everything known before.
    WorkspacesChanged { workspaces: Vec<NiriWorkspace> },
    /// The workspace with this id became the active one on its output.
    WorkspaceActivated { id: u64 },
    /// The given workspace gained or lost an active window.
    WorkspaceActiveWindowChanged { workspace_id: u64, has_active_window: bool },
    /// The compositor-wide overview mode opened or closed.
    OverviewOpenedOrClosed { is_open: bool },
    /// Any other event kind: ignored.
    Other,
}

/// View of a sequence of workspace records.
pub open spec fn rec_view(v: Seq<NiriWorkspace>) -> Seq<NiriWorkspaceV> {
    v.map_values(|w: NiriWorkspace| w@)
}

/// View of a sequence of output snapshots.
pub open spec fn out_view(v: Seq<OutputInfo>) -> Seq<OutputInfoV> {
    v.map_values(|o: OutputInfo| o@)
}

/// View of a sequence of output names.
pub open spec fn str_view(v: Seq<String>) -> Seq<Seq<char>> {
    v.map_values(|s: String| s@)
}

/// View of an optional output name.
pub open spec fn opt_str_view(o: Option<String>) -> Option<Seq<char>> {
    match o {
        Some(s) => Some(s@),
        None => None,
    }
}

/// `w` inserted into `s` behind every element whose index does not exceed
/// `w`'s: insertion into a sequence sorted ascending by compositor index.
pub open spec fn insert_by_idx(s: Seq<NiriWorkspaceV>, w: NiriWorkspaceV) -> Seq<NiriWorkspaceV>
    decreases s.len(),
{
    if s.len() == 0 {
        seq![w]
    } else if s.last().idx <= w.idx {
        s.push(w)
    } else {
        insert_by_idx(s.drop_last(), w).push(s.last())
    }
}

/// The records of `s` that live on output `name`, sorted ascending by
/// compositor index.
pub open spec fn grouped(s: Seq<NiriWorkspaceV>, name: Seq<char>) -> Seq<NiriWorkspaceV>
    decreases s.len(),
{
    if s.len() == 0 {
        Seq::empty()
    } else {
        let rest = grouped(s.drop_last(), name);
        if s.last().output == Some(name) {
            insert_by_idx(rest, s.last())
        } else {
            rest
        }
    }
}

/// Ascending order by compositor index.
pub open spec fn sorted_by_idx(s: Seq<NiriWorkspaceV>) -> bool {
    forall|i: int, j: int| 0 <= i < j < s.len() ==> s[i].idx <= s[j].idx
}

/// The distinct output names occurring in `s`, in order of first
/// appearance, appended to `acc`.
pub open spec fn output_names_from(s: Seq<NiriWorkspaceV>, acc: Seq<Seq<char>>) -> Seq<Seq<char>>
    decreases s.len(),
{
    if s.len() == 0 {
        acc
    } else {
        let acc2 = match s.first().output {
            Some(n) => if acc.contains(n) {
                acc
            } else {
                acc.push(n)
            },
            None => acc,
        };
        output_names_from(s.drop_first(), acc2)
    }
}

/// The distinct output names occurring in `s`, in order of first appearance.
pub open spec fn output_names(s: Seq<NiriWorkspaceV>) -> Seq<Seq<char>> {
    output_names_from(s, Seq::empty())
}

/// Position of the first record flagged active, if any.
pub open spec fn first_active(g: Seq<NiriWorkspaceV>) -> Option<int>
    decreases g.len(),
{
    if g.len() == 0 {
        None
    } else if g.first().is_active {
        Some(0int)
    } else {
        match first_active(g.drop_first()) {
            Some(i) => Some(i + 1),
            None => None,
        }
    }
}

/// Whether some record is both flagged active and holds a window.
pub open spec fn any_active_with_windows(g: Seq<NiriWorkspaceV>) -> bool {
    exists|i: int| 0 <= i < g.len() && g[i].is_active && g[i].has_active_window
}

/// The transparency rule: the bar is transparent exactly when the overview
/// is open or the output has no active workspace with windows.
pub open spec fn transparent_of(g: Seq<NiriWorkspaceV>, overview: bool) -> bool {
    overview || !any_active_with_windows(g)
}

/// The canonical snapshot of output `name`, derived from the full record
/// sequence and the overview flag.
pub open spec fn info_of(recs: Seq<NiriWorkspaceV>, name: Seq<char>, overview: bool) -> OutputInfoV {
    let g = grouped(recs, name);
    OutputInfoV {
        name: name,
        workspaces: g.map_values(|w: NiriWorkspaceV| WorkspaceInfo { has_windows: w.has_active_window }),
        active_workspace_idx: first_active(g),
        show_transparent: transparent_of(g, overview),
    }
}

/// Snapshots of every output named in `recs`, in first-appearance order.
pub open spec fn rebuilt_outputs(recs: Seq<NiriWorkspaceV>, overview: bool) -> Seq<OutputInfoV> {
    output_names(recs).map_values(|n: Seq<char>| info_of(recs, n, overview))
}

/// First record with the given id, if any.
pub open spec fn find_ws(s: Seq<NiriWorkspaceV>, id: u64) -> Option<NiriWorkspaceV>
    decreases s.len(),
{
    if s.len() == 0 {
        None
    } else if s.first().id == id {
        Some(s.first())
    } else {
        find_ws(s.drop_first(), id)
    }
}

/// Position of the first stored snapshot named `name`, if any.
pub open spec fn find_output(outs: Seq<OutputInfoV>, name: Seq<char>) -> Option<int>
    decreases outs.len(),
{
    if outs.len() == 0 {
        None
    } else if outs.first().name == name {
        Some(0int)
    } else {
        match find_output(outs.drop_first(), name) {
            Some(i) => Some(i + 1),
            None => None,
        }
    }
}

/// Records after a workspace activation: on output `name`, exactly the
/// records with the activated id are flagged active; other outputs are
/// untouched.
pub open spec fn activate(s: Seq<NiriWorkspaceV>, id: u64, name: Seq<char>) -> Seq<NiriWorkspaceV> {
    s.map_values(
        |w: NiriWorkspaceV|
            if w.output == Some(name) {
                NiriWorkspaceV { is_active: w.id == id, ..w }
            } else {
                w
            },
    )
}

/// Records after a window-presence change on the workspace with the given
/// id and output.
pub open spec fn set_window(
    s: Seq<NiriWorkspaceV>,
    id: u64,
    has: bool,
    out: Option<Seq<char>>,
) -> Seq<NiriWorkspaceV> {
    s.map_values(
        |w: NiriWorkspaceV|
            if w.id == id && w.output == out {
                NiriWorkspaceV { has_active_window: has, ..w }
            } else {
                w
            },
    )
}

/// Stored snapshots with every entry named `name` replaced by `info`.
pub open spec fn replace_output(
    outs: Seq<OutputInfoV>,
    name: Seq<char>,
    info: OutputInfoV,
) -> Seq<OutputInfoV> {
    outs.map_values(
        |e: OutputInfoV|
            if e.name == name {
                info
            } else {
                e
            },
    )
}

/// The entries of `new` that differ from their counterpart in `old`, in
/// order; empty unless the two sequences have equal length.
pub open spec fn changed_entries(old_outs: Seq<OutputInfoV>, new_outs: Seq<OutputInfoV>) -> Seq<
    OutputInfoV,
>
    decreases new_outs.len(),
{
    if new_outs.len() == 0 || old_outs.len() != new_outs.len() {
        Seq::empty()
    } else {
        let rest = changed_entries(old_outs.drop_last(), new_outs.drop_last());
        if new_outs.last() == old_outs.last() {
            rest
        } else {
            rest.push(new_outs.last())
        }
    }
}

/// The fold's model: last-known workspace records, last-emitted snapshot
/// per output, and the overview flag.
pub struct NiriState {
    workspaces: Vec<NiriWorkspace>,
    outputs: Vec<OutputInfo>,
    overview_open: bool,
}

/// Mathematical value of a [`NiriState`].
#[verifier::ext_equal]
pub ghost struct NiriStateV {
    pub workspaces: Seq<NiriWorkspaceV>,
    pub outputs: Seq<OutputInfoV>,
    pub overview_open: bool,
}

impl View for NiriState {
    type V = NiriStateV;

    closed spec fn view(&self) -> NiriStateV {
        NiriStateV {
            workspaces: rec_view(self.workspaces@),
            outputs: out_view(self.outputs@),
            overview_open: self.overview_open,
        }
    }
}

/// The fold's invariant: the stored snapshots are exactly the canonical
/// snapshots of the stored records, one per output name in first-appearance
/// order.
pub open spec fn state_inv(s: NiriStateV) -> bool {
    s.outputs == rebuilt_outputs(s.workspaces, s.overview_open)
}

/// New state after one event.
pub open spec fn step_state(pre: NiriStateV, ev: DesktopEvent) -> NiriStateV {
    match ev {
        DesktopEvent::WorkspacesChanged { workspaces } => step_topology(pre, rec_view(workspaces@)).0,
        DesktopEvent::WorkspaceActivated { id } => step_activated(pre, id).0,
        DesktopEvent::WorkspaceActiveWindowChanged { workspace_id, has_active_window } => step_window(
            pre,
            workspace_id,
            has_active_window,
        ).0,
        DesktopEvent::OverviewOpenedOrClosed { is_open } => step_overview(pre, is_open).0,
        DesktopEvent::Other => pre,
    }
}

/// Snapshots emitted for one event.
pub open spec fn step_emits(pre: NiriStateV, ev: DesktopEvent) -> Seq<OutputInfoV> {
    match ev {
        DesktopEvent::WorkspacesChanged { workspaces } => step_topology(pre, rec_view(workspaces@)).1,
        DesktopEvent::WorkspaceActivated { id } => step_activated(pre, id).1,
        DesktopEvent::WorkspaceActiveWindowChanged { workspace_id, has_active_window } => step_window(
            pre,
            workspace_id,
            has_active_window,
        ).1,
        DesktopEvent::OverviewOpenedOrClosed { is_open } => step_overview(pre, is_open).1,
        DesktopEvent::Other => Seq::empty(),
    }
}

/// Full topology change: clear and rebuild everything, emit every output.
pub open spec fn step_topology(pre: NiriStateV, recs: Seq<NiriWorkspaceV>) -> (
    NiriStateV,
    Seq<OutputInfoV>,
) {
    let outs = rebuilt_outputs(recs, pre.overview_open);
    (NiriStateV { workspaces: recs, outputs: outs, overview_open: pre.overview_open }, outs)
}

/// Recompute the single output `name` over the new records `recs`; emit its
/// snapshot only if it differs from the stored one.
pub open spec fn refresh_one(pre: NiriStateV, recs: Seq<NiriWorkspaceV>, name: Seq<char>) -> (
    NiriStateV,
    Seq<OutputInfoV>,
) {
    let info = info_of(recs, name, pre.overview_open);
    let outs = replace_output(pre.outputs, name, info);
    let st = NiriStateV { workspaces: recs, outputs: outs, overview_open: pre.overview_open };
    let emits = match find_output(pre.outputs, name) {
        Some(k) => if pre.outputs[k] == info {
            Seq::<OutputInfoV>::empty()
        } else {
            seq![info]
        },
        None => Seq::<OutputInfoV>::empty(),
    };
    (st, emits)
}

/// A workspace became active on its output.  Unknown ids and workspaces
/// without an output are dropped silently.
pub open spec fn step_activated(pre: NiriStateV, id: u64) -> (NiriStateV, Seq<OutputInfoV>) {
    match find_ws(pre.workspaces, id) {
        None => (pre, Seq::empty()),
        Some(w) => match w.output {
            None => (pre, Seq::empty()),
            Some(name) => refresh_one(pre, activate(pre.workspaces, id, name), name),
        },
    }
}

/// A workspace gained or lost an active window.  Unknown ids are dropped
/// silently; a workspace without an output is updated without an emission.
pub open spec fn step_window(pre: NiriStateV, id: u64, has: bool) -> (NiriStateV, Seq<OutputInfoV>) {
    match find_ws(pre.workspaces, id) {
        None => (pre, Seq::empty()),
        Some(w) => {
            let recs = set_window(pre.workspaces, id, has, w.output);
            match w.output {
                None => (
                    NiriStateV {
                        workspaces: recs,
                        outputs: pre.outputs,
                        overview_open: pre.overview_open,
                    },
                    Seq::empty(),
                ),
                Some(name) => refresh_one(pre, recs, name),
            }
        },
    }
}

/// The overview opened or closed: recompute every output, emit exactly the
/// outputs whose snapshot changed.
pub open spec fn step_overview(pre: NiriStateV, is_open: bool) -> (NiriStateV, Seq<OutputInfoV>) {
    let outs = pre.outputs.map_values(
        |e: OutputInfoV| info_of(pre.workspaces, e.name, is_open),
    );
    (
        NiriStateV { workspaces: pre.workspaces, outputs: outs, overview_open: is_open },
        changed_entries(pre.outputs, outs),
    )
}

impl NiriState {
    /// The fold's invariant, as seen by callers.
    pub open spec fn wf(&self) -> bool {
        state_inv(self@)
    }

    /// Fresh model: nothing known, overview closed.
    pub fn new() -> (s: Self)
        ensures
            s.wf(),
            s@.workspaces.len() == 0,
            s@.outputs.len() == 0,
            !s@.overview_open,
    {
        let s = NiriState { workspaces: Vec::new(), outputs: Vec::new(), overview_open: false };
        proof {
            assert(rec_view(s.workspaces@) =~= Seq::<NiriWorkspaceV>::empty());
            assert(out_view(s.outputs@) =~= Seq::<OutputInfoV>::empty());
            assert(output_names_from(Seq::<NiriWorkspaceV>::empty(), Seq::<Seq<char>>::empty())
                =~= Seq::<Seq<char>>::empty());
            assert(s@.outputs =~= rebuilt_outputs(s@.workspaces, s@.overview_open));
        }
        s
    }

    /// Whether the compositor-wide overview is currently open.
    pub fn is_overview_open(&self) -> (r: bool)
        ensures
            r == self@.overview_open,
    {
        self.overview_open
    }

    /// The stored snapshots, one per known output, in first-appearance order.
    pub fn outputs(&self) -> (r: &Vec<OutputInfo>)
        ensures
            out_view(r@) == self@.outputs,
    {
        &self.outputs
    }
}

// ---------------------------------------------------------------------------
// Characterizations of the searching spec functions.
// ---------------------------------------------------------------------------

/// `first_active` returns the position of the first record flagged active.
pub proof fn lemma_first_active_char(g: Seq<NiriWorkspaceV>)
    ensures
        match first_active(g) {
            None => forall|i: int| 0 <= i < g.len() ==> !g[i].is_active,
            Some(i) => 0 <= i < g.len() && g[i].is_active && (forall|j: int|
                0 <= j < i ==> !g[j].is_active),
        },
    decreases g.len(),
{
    if g.len() > 0 && !g.first().is_active {
        let rest = g.drop_first();
        lemma_first_active_char(rest);
        match first_active(rest) {
            None => {
                assert forall|i: int| 0 <= i < g.len() implies !g[i].is_active by {
                    if i > 0 {
                        assert(rest[i - 1] == g[i]);
                    }
                }
            },
            Some(i) => {
                assert(rest[i] == g[i + 1]);
                assert forall|j: int| 0 <= j < i + 1 implies !g[j].is_active by {
                    if j > 0 {
                        assert(rest[j - 1] == g[j]);
                    }
                }
            },
        }
    }
}

/// Converse: a first flagged-active position determines `first_active`.
pub proof fn lemma_first_active_at(g: Seq<NiriWorkspaceV>, i: int)
    requires
        0 <= i < g.len(),
        g[i].is_active,
        forall|j: int| 0 <= j < i ==> !g[j].is_active,
    ensures
        first_active(g) == Some(i),
    decreases g.len(),
{
    if i > 0 {
        let rest = g.drop_first();
        assert(forall|k: int| 0 <= k < rest.len() ==> rest[k] == g[k + 1]);
        lemma_first_active_at(rest, i - 1);
    }
}

/// Converse: no flagged-active record means no `first_active`.
pub proof fn lemma_first_active_none(g: Seq<NiriWorkspaceV>)
    requires
        forall|i: int| 0 <= i < g.len() ==> !g[i].is_active,
    ensures
        first_active(g) == None::<int>,
    decreases g.len(),
{
    if g.len() > 0 {
        let rest = g.drop_first();
        assert(forall|k: int| 0 <= k < rest.len() ==> rest[k] == g[k + 1]);
        lemma_first_active_none(rest);
    }
}

/// `find_ws` returns the first record carrying the id.
pub proof fn lemma_find_ws_at(s: Seq<NiriWorkspaceV>, id: u64, k: int)
    requires
        0 <= k < s.len(),
        s[k].id == id,
        forall|j: int| 0 <= j < k ==> s[j].id != id,
    ensures
        find_ws(s, id) == Some(s[k]),
    decreases s.len(),
{
    if k > 0 {
        let rest = s.drop_first();
        assert(forall|j: int| 0 <= j < rest.len() ==> rest[j] == s[j + 1]);
        lemma_find_ws_at(rest, id, k - 1);
    }
}

/// Converse: an id carried by no record is not found.
pub proof fn lemma_find_ws_none(s: Seq<NiriWorkspaceV>, id: u64)
    requires
        forall|j: int| 0 <= j < s.len() ==> s[j].id != id,
    ensures
        find_ws(s, id) == None::<NiriWorkspaceV>,
    decreases s.len(),
{
    if s.len() > 0 {
        let rest = s.drop_first();
        assert(forall|j: int| 0 <= j < rest.len() ==> rest[j] == s[j + 1]);
        lemma_find_ws_none(rest, id);
    }
}

/// `find_output` returns the position of the first snapshot with the name.
pub proof fn lemma_find_output_at(outs: Seq<OutputInfoV>, name: Seq<char>, k: int)
    requires
        0 <= k < outs.len(),
        outs[k].name == name,
        forall|j: int| 0 <= j < k ==> outs[j].name != name,
    ensures
        find_output(outs, name) == Some(k),
    decreases outs.len(),
{
    if k > 0 {
        let rest = outs.drop_first();
        assert(forall|j: int| 0 <= j < rest.len() ==> rest[j] == outs[j + 1]);
        lemma_find_output_at(rest, name, k - 1);
    }
}

/// Converse: a name carried by no snapshot is not found.
pub proof fn lemma_find_output_none(outs: Seq<OutputInfoV>, name: Seq<char>)
    requires
        forall|j: int| 0 <= j < outs.len() ==> outs[j].name != name,
    ensures
        find_output(outs, name) == None::<int>,
    decreases outs.len(),
{
    if outs.len() > 0 {
        let rest = outs.drop_first();
        assert(forall|j: int| 0 <= j < rest.len() ==> rest[j] == outs[j + 1]);
        lemma_find_output_none(rest, name);
    }
}

// ---------------------------------------------------------------------------
// Verified executable building blocks of the fold.
// ---------------------------------------------------------------------------

/// A fresh record with the same value.
fn dup_ws(w: &NiriWorkspace) -> (r: NiriWorkspace)
    ensures
        r@ == w@,
{
    let r = NiriWorkspace {
        id: w.id,
        idx: w.idx,
        output: match &w.output {
            Some(s) => Some(s.clone()),
            None => None,
        },
        is_active: w.is_active,
        has_active_window: w.has_active_window,
    };
    proof {
        assert(r@ =~= w@);
    }
    r
}

/// A fresh workspace list with the same value.
fn copy_ws_list(v: &Vec<WorkspaceInfo>) -> (r: Vec<WorkspaceInfo>)
    ensures
        r@ == v@,
{
    let mut r: Vec<WorkspaceInfo> = Vec::new();
    let mut i: usize = 0;
    while i < v.len()
        invariant
            0 <= i <= v@.len(),
            r@ == v@.take(i as int),
        decreases v@.len() - i,
    {
        r.push(v[i]);
        proof {
            assert(v@.take(i as int + 1) =~= v@.take(i as int).push(v@[i as int]));
        }
        i += 1;
    }
    proof {
        assert(v@.take(v@.len() as int) =~= v@);
    }
    r
}

/// A fresh snapshot with the same value.
fn dup_output(o: &OutputInfo) -> (r: OutputInfo)
    ensures
        r@ == o@,
{
    let r = OutputInfo {
        name: o.name.clone(),
        workspaces: copy_ws_list(&o.workspaces),
        active_workspace_idx: o.active_workspace_idx,
        show_transparent: o.show_transparent,
    };
    proof {
        assert(r@ =~= o@);
    }
    r
}

/// Insertion into a list kept sorted ascending by compositor index.
fn insert_sorted(v: Vec<NiriWorkspace>, w: NiriWorkspace) -> (r: Vec<NiriWorkspace>)
    ensures
        rec_view(r@) == insert_by_idx(rec_view(v@), w@),
    decreases v@.len(),
{
    let ghost v0 = v@;
    let mut v = v;
    if v.len() == 0 {
        let mut r: Vec<NiriWorkspace> = Vec::new();
        r.push(w);
        proof {
            assert(rec_view(v0).len() == 0);
            assert(rec_view(r@) =~= seq![w@]);
        }
        r
    } else if v[v.len() - 1].idx <= w.idx {
        proof {
            assert(rec_view(v0).last() == v0.last()@);
        }
        v.push(w);
        proof {
            assert(rec_view(v0.push(w)) =~= rec_view(v0).push(w@));
        }
        v
    } else {
        let lst = v.pop().unwrap();
        proof {
            assert(v@ =~= v0.drop_last());
            assert(rec_view(v0.drop_last()) =~= rec_view(v0).drop_last());
            assert(rec_view(v0).last() == v0.last()@);
        }
        let mut r = insert_sorted(v, w);
        r.push(lst);
        proof {
            assert(rec_view(r@) =~= insert_by_idx(rec_view(v0).drop_last(), w@).push(v0.last()@));
        }
        r
    }
}

/// The records of `recs` living on output `name`, sorted ascending by
/// compositor index.
fn build_group(recs: &Vec<NiriWorkspace>, name: &String) -> (g: Vec<NiriWorkspace>)
    ensures
        rec_view(g@) == grouped(rec_view(recs@), name@),
{
    let ghost rv = rec_view(recs@);
    let mut g: Vec<NiriWorkspace> = Vec::new();
    let mut i: usize = 0;
    proof {
        assert(rv.take(0) =~= Seq::<NiriWorkspaceV>::empty());
        assert(rec_view(g@) =~= Seq::<NiriWorkspaceV>::empty());
    }
    while i < recs.len()
        invariant
            0 <= i <= recs@.len(),
            rv == rec_view(recs@),
            rec_view(g@) == grouped(rv.take(i as int), name@),
        decreases recs@.len() - i,
    {
        proof {
            assert(rv.take(i as int + 1).drop_last() =~= rv.take(i as int));
            assert(rv.take(i as int + 1).last() == rv[i as int]);
            assert(rv[i as int] == recs@[i as int]@);
        }
        let selected = match &recs[i].output {
            Some(n) => *n == *name,
            None => false,
        };
        proof {
            assert(selected == (recs@[i as int]@.output == Some(name@)));
        }
        if selected {
            let w = dup_ws(&recs[i]);
            g = insert_sorted(g, w);
        }
        i += 1;
    }
    proof {
        assert(rv.take(recs@.len() as int) =~= rv);
    }
    g
}

/// The canonical snapshot of output `name` over the records `recs`.
fn compute_info(recs: &Vec<NiriWorkspace>, name: &String, overview: bool) -> (r: OutputInfo)
    ensures
        r@ == info_of(rec_view(recs@), name@, overview),
{
    let g = build_group(recs, name);
    let ghost gv = grouped(rec_view(recs@), name@);
    let mut ws: Vec<WorkspaceInfo> = Vec::new();
    let mut active_idx: Option<usize> = None;
    let mut any_windows = false;
    let mut i: usize = 0;
    proof {
        assert(gv.take(0).map_values(
            |w: NiriWorkspaceV| WorkspaceInfo { has_windows: w.has_active_window },
        ) =~= Seq::<WorkspaceInfo>::empty());
    }
    while i < g.len()
        invariant
            0 <= i <= g@.len(),
            rec_view(g@) == gv,
            gv.len() == g@.len(),
            ws@ == gv.take(i as int).map_values(
                |w: NiriWorkspaceV| WorkspaceInfo { has_windows: w.has_active_window },
            ),
            match active_idx {
                None => forall|k: int| 0 <= k < i ==> !gv[k].is_active,
                Some(a) => 0 <= a < i && gv[a as int].is_active && (forall|k: int|
                    0 <= k < a ==> !gv[k].is_active),
            },
            any_windows == (exists|k: int|
                0 <= k < i && gv[k].is_active && gv[k].has_active_window),
        decreases g@.len() - i,
    {
        proof {
            assert(gv[i as int] == g@[i as int]@);
            assert(gv.take(i as int + 1).map_values(
                |w: NiriWorkspaceV| WorkspaceInfo { has_windows: w.has_active_window },
            ) =~= gv.take(i as int).map_values(
                |w: NiriWorkspaceV| WorkspaceInfo { has_windows: w.has_active_window },
            ).push(WorkspaceInfo { has_windows: gv[i as int].has_active_window }));
        }
        ws.push(WorkspaceInfo { has_windows: g[i].has_active_window });
        if g[i].is_active {
            if active_idx.is_none() {
                active_idx = Some(i);
            }
            if g[i].has_active_window {
                any_windows = true;
            }
        }
        i += 1;
    }
    proof {
        assert(gv.take(gv.len() as int) =~= gv);
        match active_idx {
            None => lemma_first_active_none(gv),
            Some(a) => lemma_first_active_at(gv, a as int),
        }
    }
    let r = OutputInfo {
        name: name.clone(),
        workspaces: ws,
        active_workspace_idx: active_idx,
        show_transparent: overview || !any_windows,
    };
    proof {
        assert(any_windows == any_active_with_windows(gv));
        assert(r@ =~= info_of(rec_view(recs@), name@, overview));
    }
    r
}

/// Whether `acc` already holds a name with this value.
fn names_contains(acc: &Vec<String>, n: &String) -> (r: bool)
    ensures
        r == str_view(acc@).contains(n@),
{
    let mut j: usize = 0;
    while j < acc.len()
        invariant
            0 <= j <= acc@.len(),
            forall|k: int| 0 <= k < j ==> acc@[k]@ != n@,
        decreases acc@.len() - j,
    {
        if acc[j] == *n {
            proof {
                assert(str_view(acc@)[j as int] == n@);
            }
            return true;
        }
        j += 1;
    }
    proof {
        assert forall|k: int| 0 <= k < str_view(acc@).len() implies str_view(acc@)[k] != n@ by {
            assert(str_view(acc@)[k] == acc@[k]@);
        }
    }
    false
}

/// The distinct output names of `recs`, in order of first appearance.
fn collect_output_names(recs: &Vec<NiriWorkspace>) -> (names: Vec<String>)
    ensures
        str_view(names@) == output_names(rec_view(recs@)),
{
    let ghost rv = rec_view(recs@);
    let mut names: Vec<String> = Vec::new();
    let mut i: usize = 0;
    proof {
        assert(rv.skip(0) =~= rv);
        assert(str_view(names@) =~= Seq::<Seq<char>>::empty());
    }
    while i < recs.len()
        invariant
            0 <= i <= recs@.len(),
            rv == rec_view(recs@),
            output_names_from(rv.skip(i as int), str_view(names@)) == output_names(rv),
        decreases recs@.len() - i,
    {
        proof {
            assert(rv.skip(i as int).first() == rv[i as int]);
            assert(rv.skip(i as int).drop_first() =~= rv.skip(i as int + 1));
            assert(rv[i as int] == recs@[i as int]@);
        }
        let ghost names0 = str_view(names@);
        match &recs[i].output {
            Some(n) => {
                if !names_contains(&names, n) {
                    names.push(n.clone());
                    proof {
                        assert(str_view(names@) =~= names0.push(n@));
                    }
                }
            },
            None => {},
        }
        i += 1;
    }
    proof {
        assert(rv.skip(recs@.len() as int) =~= Seq::<NiriWorkspaceV>::empty());
    }
    names
}

/// Position of the first record with this id, if any.
fn find_ws_index(recs: &Vec<NiriWorkspace>, id: u64) -> (r: Option<usize>)
    ensures
        match r {
            Some(k) => 0 <= k < recs@.len() && recs@[k as int]@.id == id && find_ws(
                rec_view(recs@),
                id,
            ) == Some(recs@[k as int]@),
            None => find_ws(rec_view(recs@), id) == None::<NiriWorkspaceV>,
        },
{
    let ghost rv = rec_view(recs@);
    let mut i: usize = 0;
    while i < recs.len()
        invariant
            0 <= i <= recs@.len(),
            rv == rec_view(recs@),
            forall|j: int| 0 <= j < i ==> rv[j].id != id,
        decreases recs@.len() - i,
    {
        if recs[i].id == id {
            proof {
                lemma_find_ws_at(rv, id, i as int);
            }
            return Some(i);
        }
        i += 1;
    }
    proof {
        lemma_find_ws_none(rv, id);
    }
    None
}

/// Position of the first stored snapshot with this name, if any.
pub(crate) fn find_output_index(outs: &Vec<OutputInfo>, name: &String) -> (r: Option<usize>)
    ensures
        match r {
            Some(k) => 0 <= k < outs@.len() && outs@[k as int]@.name == name@ && find_output(
                out_view(outs@),
                name@,
            ) == Some(k as int),
            None => find_output(out_view(outs@), name@) == None::<int>,
        },
{
    let ghost ov = out_view(outs@);
    let mut i: usize = 0;
    while i < outs.len()
        invariant
            0 <= i <= outs@.len(),
            ov == out_view(outs@),
            forall|j: int| 0 <= j < i ==> ov[j].name != name@,
        decreases outs@.len() - i,
    {
        if outs[i].name == *name {
            proof {
                assert(ov[i as int].name == name@);
                lemma_find_output_at(ov, name@, i as int);
            }
            return Some(i);
        }
        i += 1;
    }
    proof {
        lemma_find_output_none(ov, name@);
    }
    None
}

/// Records after a workspace activation on output `name`.
fn apply_activation(recs: &Vec<NiriWorkspace>, id: u64, name: &String) -> (r: Vec<NiriWorkspace>)
    ensures
        rec_view(r@) == activate(rec_view(recs@), id, name@),
{
    let ghost rv = rec_view(recs@);
    let ghost goal = activate(rv, id, name@);
    let mut r: Vec<NiriWorkspace> = Vec::new();
    let mut i: usize = 0;
    proof {
        assert(rec_view(r@) =~= goal.take(0));
    }
    while i < recs.len()
        invariant
            0 <= i <= recs@.len(),
            rv == rec_view(recs@),
            goal == activate(rv, id, name@),
            rec_view(r@) == goal.take(i as int),
        decreases recs@.len() - i,
    {
        let ghost r0 = rec_view(r@);
        let selected = match &recs[i].output {
            Some(n) => *n == *name,
            None => false,
        };
        proof {
            assert(rv[i as int] == recs@[i as int]@);
            assert(selected == (rv[i as int].output == Some(name@)));
        }
        let w = &recs[i];
        if selected {
            let nw = NiriWorkspace {
                id: w.id,
                idx: w.idx,
                output: match &w.output {
                    Some(s) => Some(s.clone()),
                    None => None,
                },
                is_active: w.id == id,
                has_active_window: w.has_active_window,
            };
            proof {
                assert(nw@ =~= goal[i as int]);
            }
            r.push(nw);
        } else {
            let nw = dup_ws(w);
            proof {
                assert(nw@ == goal[i as int]);
            }
            r.push(nw);
        }
        proof {
            assert(rec_view(r@) =~= r0.push(goal[i as int]));
            assert(goal.take(i as int + 1) =~= goal.take(i as int).push(goal[i as int]));
        }
        i += 1;
    }
    proof {
        assert(goal.take(recs@.len() as int) =~= goal);
    }
    r
}

/// Whether two optional output names hold the same value.
fn opt_name_eq(a: &Option<String>, b: &Option<String>) -> (r: bool)
    ensures
        r == (opt_str_view(*a) == opt_str_view(*b)),
{
    match (a, b) {
        (Some(x), Some(y)) => *x == *y,
        (None, None) => true,
        _ => false,
    }
}

/// Records after a window-presence change on the workspace with this id
/// and output.
fn apply_window_change(recs: &Vec<NiriWorkspace>, id: u64, has: bool, out: &Option<String>) -> (r:
    Vec<NiriWorkspace>)
    ensures
        rec_view(r@) == set_window(rec_view(recs@), id, has, opt_str_view(*out)),
{
    let ghost rv = rec_view(recs@);
    let ghost goal = set_window(rv, id, has, opt_str_view(*out));
    let mut r: Vec<NiriWorkspace> = Vec::new();
    let mut i: usize = 0;
    proof {
        assert(rec_view(r@) =~= goal.take(0));
    }
    while i < recs.len()
        invariant
            0 <= i <= recs@.len(),
            rv == rec_view(recs@),
            goal == set_window(rv, id, has, opt_str_view(*out)),
            rec_view(r@) == goal.take(i as int),
        decreases recs@.len() - i,
    {
        let ghost r0 = rec_view(r@);
        let w = &recs[i];
        let selected = w.id == id && opt_name_eq(&w.output, out);
        proof {
            assert(rv[i as int] == recs@[i as int]@);
            assert(opt_str_view(recs@[i as int].output) == rv[i as int].output);
        }
        if selected {
            let nw = NiriWorkspace {
                id: w.id,
                idx: w.idx,
                output: match &w.output {
                    Some(s) => Some(s.clone()),
                    None => None,
                },
                is_active: w.is_active,
                has_active_window: has,
            };
            proof {
                assert(nw@ =~= goal[i as int]);
            }
            r.push(nw);
        } else {
            let nw = dup_ws(w);
            proof {
                assert(nw@ == goal[i as int]);
            }
            r.push(nw);
        }
        proof {
            assert(rec_view(r@) =~= r0.push(goal[i as int]));
            assert(goal.take(i as int + 1) =~= goal.take(i as int).push(goal[i as int]));
        }
        i += 1;
    }
    proof {
        assert(goal.take(recs@.len() as int) =~= goal);
    }
    r
}

/// Stored snapshots with every entry named `name` replaced by `info`.
fn replace_matching(outs: &Vec<OutputInfo>, name: &String, info: &OutputInfo) -> (r: Vec<OutputInfo>)
    ensures
        out_view(r@) == replace_output(out_view(outs@), name@, info@),
{
    let ghost ov = out_view(outs@);
    let ghost goal = replace_output(ov, name@, info@);
    let mut r: Vec<OutputInfo> = Vec::new();
    let mut i: usize = 0;
    proof {
        assert(out_view(r@) =~= goal.take(0));
    }
    while i < outs.len()
        invariant
            0 <= i <= outs@.len(),
            ov == out_view(outs@),
            goal == replace_output(ov, name@, info@),
            out_view(r@) == goal.take(i as int),
        decreases outs@.len() - i,
    {
        let ghost r0 = out_view(r@);
        proof {
            assert(ov[i as int] == outs@[i as int]@);
        }
        let e = if outs[i].name == *name {
            dup_output(info)
        } else {
            dup_output(&outs[i])
        };
        proof {
            assert(e@ == goal[i as int]);
        }
        r.push(e);
        proof {
            assert(out_view(r@) =~= r0.push(goal[i as int]));
            assert(goal.take(i as int + 1) =~= goal.take(i as int).push(goal[i as int]));
        }
        i += 1;
    }
    proof {
        assert(goal.take(outs@.len() as int) =~= goal);
    }
    r
}

// ---------------------------------------------------------------------------
// The fold's invariant is preserved by every event.
// ---------------------------------------------------------------------------

/// Two record sequences that agree except on records of other outputs have
/// the same group for `name`.
proof fn lemma_grouped_congruence(s: Seq<NiriWorkspaceV>, s2: Seq<NiriWorkspaceV>, name: Seq<char>)
    requires
        s.len() == s2.len(),
        forall|i: int|
            0 <= i < s.len() ==> (s2[i] == s[i] || (s[i].output != Some(name) && s2[i].output
                != Some(name))),
    ensures
        grouped(s2, name) == grouped(s, name),
    decreases s.len(),
{
    if s.len() > 0 {
        assert forall|i: int| 0 <= i < s.drop_last().len() implies (s2.drop_last()[i]
            == s.drop_last()[i] || (s.drop_last()[i].output != Some(name)
            && s2.drop_last()[i].output != Some(name))) by {
            assert(s.drop_last()[i] == s[i]);
            assert(s2.drop_last()[i] == s2[i]);
        }
        lemma_grouped_congruence(s.drop_last(), s2.drop_last(), name);
        assert(s.last() == s[s.len() - 1]);
        assert(s2.last() == s2[s.len() - 1]);
    }
}

/// Two record sequences with the same per-record outputs name the same
/// outputs, in the same order.
proof fn lemma_output_names_congruence(
    s: Seq<NiriWorkspaceV>,
    s2: Seq<NiriWorkspaceV>,
    acc: Seq<Seq<char>>,
)
    requires
        s.len() == s2.len(),
        forall|i: int| 0 <= i < s.len() ==> s2[i].output == s[i].output,
    ensures
        output_names_from(s2, acc) == output_names_from(s, acc),
    decreases s.len(),
{
    if s.len() > 0 {
        assert(s2.first().output == s.first().output);
        assert forall|i: int| 0 <= i < s.drop_first().len() implies s2.drop_first()[i].output
            == s.drop_first()[i].output by {
            assert(s.drop_first()[i] == s[i + 1]);
            assert(s2.drop_first()[i] == s2[i + 1]);
        }
        let acc2 = match s.first().output {
            Some(n) => if acc.contains(n) {
                acc
            } else {
                acc.push(n)
            },
            None => acc,
        };
        lemma_output_names_congruence(s.drop_first(), s2.drop_first(), acc2);
    }
}

/// Every output named by some record is listed.
proof fn lemma_output_names_covers(s: Seq<NiriWorkspaceV>, acc: Seq<Seq<char>>, n: Seq<char>)
    requires
        acc.contains(n) || exists|i: int| 0 <= i < s.len() && s[i].output == Some(n),
    ensures
        output_names_from(s, acc).contains(n),
    decreases s.len(),
{
    if s.len() == 0 {
    } else {
        let acc2 = match s.first().output {
            Some(m) => if acc.contains(m) {
                acc
            } else {
                acc.push(m)
            },
            None => acc,
        };
        if acc.contains(n) {
            let k = choose|k: int| 0 <= k < acc.len() && acc[k] == n;
            assert(acc2[k] == n);
            lemma_output_names_covers(s.drop_first(), acc2, n);
        } else {
            let i = choose|i: int| 0 <= i < s.len() && s[i].output == Some(n);
            if i == 0 {
                assert(acc2.contains(n)) by {
                    match s.first().output {
                        Some(m) => {
                            if acc.contains(m) {
                            } else {
                                assert(acc2[acc.len() as int] == m);
                            }
                        },
                        None => {},
                    }
                }
                lemma_output_names_covers(s.drop_first(), acc2, n);
            } else {
                assert(s.drop_first()[i - 1] == s[i]);
                lemma_output_names_covers(s.drop_first(), acc2, n);
            }
        }
    }
}

/// Recomputing one output over records that changed only on that output
/// keeps the stored snapshots canonical.
proof fn lemma_refresh_one_inv(pre: NiriStateV, recs: Seq<NiriWorkspaceV>, name: Seq<char>)
    requires
        state_inv(pre),
        recs.len() == pre.workspaces.len(),
        forall|i: int|
            0 <= i < recs.len() ==> (#[trigger] recs[i]).output == pre.workspaces[i].output,
        forall|i: int|
            0 <= i < recs.len() ==> (recs[i] == pre.workspaces[i] || pre.workspaces[i].output
                == Some(name)),
    ensures
        state_inv(refresh_one(pre, recs, name).0),
{
    let ov = pre.overview_open;
    let names = output_names(pre.workspaces);
    lemma_output_names_congruence(pre.workspaces, recs, Seq::empty());
    assert(output_names(recs) == names);
    let info = info_of(recs, name, ov);
    let st = refresh_one(pre, recs, name).0;
    assert(st.outputs == replace_output(pre.outputs, name, info));
    assert(pre.outputs.len() == names.len());
    assert forall|i: int| 0 <= i < names.len() implies st.outputs[i] == rebuilt_outputs(recs, ov)[i] by {
        assert(pre.outputs[i] == info_of(pre.workspaces, names[i], ov));
        assert(pre.outputs[i].name == names[i]);
        if names[i] == name {
            assert(st.outputs[i] == info);
        } else {
            assert forall|j: int| 0 <= j < recs.len() implies (recs[j] == pre.workspaces[j] || (
            pre.workspaces[j].output != Some(names[i]) && recs[j].output != Some(names[i]))) by {
                if recs[j] != pre.workspaces[j] {
                    assert(pre.workspaces[j].output == Some(name));
                }
            }
            lemma_grouped_congruence(pre.workspaces, recs, names[i]);
            assert(info_of(recs, names[i], ov) =~= info_of(pre.workspaces, names[i], ov));
        }
    }
    assert(st.outputs =~= rebuilt_outputs(recs, ov));
}

/// Every event of the fold preserves its invariant.
pub proof fn lemma_step_preserves_inv(pre: NiriStateV, ev: DesktopEvent)
    requires
        state_inv(pre),
    ensures
        state_inv(step_state(pre, ev)),
{
    match ev {
        DesktopEvent::WorkspacesChanged { workspaces } => {},
        DesktopEvent::WorkspaceActivated { id } => {
            lemma_step_activated_inv(pre, id);
        },
        DesktopEvent::WorkspaceActiveWindowChanged { workspace_id, has_active_window } => {
            lemma_step_window_inv(pre, workspace_id, has_active_window);
        },
        DesktopEvent::OverviewOpenedOrClosed { is_open } => {
            lemma_step_overview_inv(pre, is_open);
        },
        DesktopEvent::Other => {},
    }
}

proof fn lemma_step_activated_inv(pre: NiriStateV, id: u64)
    requires
        state_inv(pre),
    ensures
        state_inv(step_activated(pre, id).0),
{
    match find_ws(pre.workspaces, id) {
        None => {},
        Some(w) => match w.output {
            None => {},
            Some(name) => {
                let recs = activate(pre.workspaces, id, name);
                assert forall|i: int| 0 <= i < recs.len() implies ((#[trigger] recs[i]).output
                    == pre.workspaces[i].output && (recs[i] == pre.workspaces[i]
                    || pre.workspaces[i].output == Some(name))) by {
                    if pre.workspaces[i].output != Some(name) {
                        assert(recs[i] == pre.workspaces[i]);
                    }
                }
                lemma_refresh_one_inv(pre, recs, name);
            },
        },
    }
}

proof fn lemma_step_window_inv(pre: NiriStateV, id: u64, has: bool)
    requires
        state_inv(pre),
    ensures
        state_inv(step_window(pre, id, has).0),
{
    match find_ws(pre.workspaces, id) {
        None => {},
        Some(w) => {
            let recs = set_window(pre.workspaces, id, has, w.output);
            assert(recs.len() == pre.workspaces.len());
            match w.output {
                None => {
                    let ov = pre.overview_open;
                    let names = output_names(pre.workspaces);
                    assert forall|i: int| 0 <= i < recs.len() implies (#[trigger] recs[i]).output
                        == pre.workspaces[i].output by {}
                    lemma_output_names_congruence(pre.workspaces, recs, Seq::empty());
                    assert forall|i: int| 0 <= i < names.len() implies pre.outputs[i]
                        == rebuilt_outputs(recs, ov)[i] by {
                        assert(pre.outputs[i] == info_of(pre.workspaces, names[i], ov));
                        assert forall|j: int| 0 <= j < recs.len() implies (recs[j]
                            == pre.workspaces[j] || (pre.workspaces[j].output != Some(names[i])
                            && recs[j].output != Some(names[i]))) by {
                            if recs[j] != pre.workspaces[j] {
                                assert(pre.workspaces[j].output == None::<Seq<char>>);
                            }
                        }
                        lemma_grouped_congruence(pre.workspaces, recs, names[i]);
                        assert(info_of(recs, names[i], ov) =~= info_of(pre.workspaces, names[i], ov));
                    }
                    assert(pre.outputs =~= rebuilt_outputs(recs, ov));
                },
                Some(name) => {
                    assert forall|i: int| 0 <= i < recs.len() implies ((#[trigger] recs[i]).output
                        == pre.workspaces[i].output && (recs[i] == pre.workspaces[i]
                        || pre.workspaces[i].output == Some(name))) by {
                        if pre.workspaces[i].output != Some(name) {
                            assert(recs[i] == pre.workspaces[i]);
                        }
                    }
                    lemma_refresh_one_inv(pre, recs, name);
                },
            }
        },
    }
}

proof fn lemma_step_overview_inv(pre: NiriStateV, is_open: bool)
    requires
        state_inv(pre),
    ensures
        state_inv(step_overview(pre, is_open).0),
{
    let names = output_names(pre.workspaces);
    let outs = step_overview(pre, is_open).0.outputs;
    assert(pre.outputs.len() == names.len());
    assert forall|i: int| 0 <= i < names.len() implies outs[i] == rebuilt_outputs(
        pre.workspaces,
        is_open,
    )[i] by {
        assert(pre.outputs[i] == info_of(pre.workspaces, names[i], pre.overview_open));
        assert(pre.outputs[i].name == names[i]);
    }
    assert(outs =~= rebuilt_outputs(pre.workspaces, is_open));
}

// ---------------------------------------------------------------------------
// The fold itself.
// ---------------------------------------------------------------------------

impl NiriState {
    /// Fold one event into the model and return the snapshots to publish,
    /// in computation order: every output on a topology change, at most the
    /// affected output on a narrow event, and nothing when nothing changed.
    pub fn apply(&mut self, ev: DesktopEvent) -> (emitted: Vec<OutputInfo>)
        requires
            old(self).wf(),
        ensures
            final(self)@ == step_state(old(self)@, ev),
            out_view(emitted@) == step_emits(old(self)@, ev),
            emitted@.len() == step_emits(old(self)@, ev).len(),
            final(self).wf(),
    {
        let ghost pre = self@;
        let ghost ge = ev;
        let emitted = match ev {
            DesktopEvent::WorkspacesChanged { workspaces } => self.apply_topology(workspaces),
            DesktopEvent::WorkspaceActivated { id } => self.apply_activated(id),
            DesktopEvent::WorkspaceActiveWindowChanged { workspace_id, has_active_window } => self
                .apply_window(workspace_id, has_active_window),
            DesktopEvent::OverviewOpenedOrClosed { is_open } => self.apply_overview(is_open),
            DesktopEvent::Other => {
                let r: Vec<OutputInfo> = Vec::new();
                proof {
                    assert(out_view(r@) =~= Seq::<OutputInfoV>::empty());
                }
                r
            },
        };
        proof {
            lemma_step_preserves_inv(pre, ge);
            assert(out_view(emitted@).len() == emitted@.len());
        }
        emitted
    }

    /// Full topology change: replace the records, rebuild and store every
    /// output's snapshot, and emit all of them unconditionally.
    fn apply_topology(&mut self, workspaces: Vec<NiriWorkspace>) -> (emitted: Vec<OutputInfo>)
        ensures
            final(self)@ == step_topology(old(self)@, rec_view(workspaces@)).0,
            out_view(emitted@) == step_topology(old(self)@, rec_view(workspaces@)).1,
    {
        self.workspaces = workspaces;
        let overview = self.overview_open;
        let names = collect_output_names(&self.workspaces);
        let ghost rv = rec_view(self.workspaces@);
        let ghost goal = rebuilt_outputs(rv, overview);
        let mut outs: Vec<OutputInfo> = Vec::new();
        let mut emitted: Vec<OutputInfo> = Vec::new();
        let mut k: usize = 0;
        proof {
            assert(out_view(outs@) =~= goal.take(0));
            assert(out_view(emitted@) =~= goal.take(0));
        }
        while k < names.len()
            invariant
                0 <= k <= names@.len(),
                rv == rec_view(self.workspaces@),
                overview == self.overview_open,
                str_view(names@) == output_names(rv),
                goal == rebuilt_outputs(rv, overview),
                goal.len() == names@.len(),
                out_view(outs@) == goal.take(k as int),
                out_view(emitted@) == goal.take(k as int),
            decreases names@.len() - k,
        {
            let ghost outs0 = out_view(outs@);
            let info = compute_info(&self.workspaces, &names[k], overview);
            proof {
                assert(str_view(names@)[k as int] == names@[k as int]@);
                assert(info@ == goal[k as int]);
            }
            emitted.push(dup_output(&info));
            outs.push(info);
            proof {
                assert(out_view(outs@) =~= outs0.push(goal[k as int]));
                assert(out_view(emitted@) =~= outs0.push(goal[k as int]));
                assert(goal.take(k as int + 1) =~= goal.take(k as int).push(goal[k as int]));
            }
            k += 1;
        }
        self.outputs = outs;
        proof {
            assert(goal.take(names@.len() as int) =~= goal);
            assert(self@ =~= step_topology(old(self)@, rec_view(self.workspaces@)).0);
        }
        emitted
    }

    /// Recompute the snapshot of output `name` over the current records,
    /// store it, and emit it only if its value changed.
    fn refresh_output(&mut self, name: &String) -> (emitted: Vec<OutputInfo>)
        ensures
            final(self)@ == refresh_one(old(self)@, old(self)@.workspaces, name@).0,
            out_view(emitted@) == refresh_one(old(self)@, old(self)@.workspaces, name@).1,
    {
        let overview = self.overview_open;
        let ghost pre = self@;
        let info = compute_info(&self.workspaces, name, overview);
        proof {
            assert(info@ == info_of(pre.workspaces, name@, pre.overview_open));
        }
        let found = find_output_index(&self.outputs, name);
        let mut emitted: Vec<OutputInfo> = Vec::new();
        proof {
            assert(out_view(emitted@) =~= Seq::<OutputInfoV>::empty());
        }
        match found {
            Some(j) => {
                if !self.outputs[j].same_view(&info) {
                    emitted.push(dup_output(&info));
                    proof {
                        assert(out_view(emitted@) =~= seq![info@]);
                    }
                }
            },
            None => {},
        }
        let newouts = replace_matching(&self.outputs, name, &info);
        self.outputs = newouts;
        proof {
            assert(self@ =~= refresh_one(pre, pre.workspaces, name@).0);
        }
        emitted
    }

    /// A workspace became active: flag it within its output's records and
    /// refresh that output.
    fn apply_activated(&mut self, id: u64) -> (emitted: Vec<OutputInfo>)
        ensures
            final(self)@ == step_activated(old(self)@, id).0,
            out_view(emitted@) == step_activated(old(self)@, id).1,
    {
        let ghost pre = self@;
        let found = find_ws_index(&self.workspaces, id);
        let k = match found {
            Some(k) => k,
            None => {
                let r: Vec<OutputInfo> = Vec::new();
                proof {
                    assert(out_view(r@) =~= Seq::<OutputInfoV>::empty());
                }
                return r;
            },
        };
        let name = match &self.workspaces[k].output {
            Some(n) => n.clone(),
            None => {
                let r: Vec<OutputInfo> = Vec::new();
                proof {
                    assert(out_view(r@) =~= Seq::<OutputInfoV>::empty());
                }
                return r;
            },
        };
        proof {
            assert(find_ws(pre.workspaces, id) == Some(pre.workspaces[k as int]));
            assert(pre.workspaces[k as int].output == Some(name@));
        }
        let recs2 = apply_activation(&self.workspaces, id, &name);
        self.workspaces = recs2;
        let ghost mid = self@;
        proof {
            assert(mid.workspaces == activate(pre.workspaces, id, name@));
            assert(mid.outputs == pre.outputs);
            assert(mid.overview_open == pre.overview_open);
        }
        let emitted = self.refresh_output(&name);
        proof {
            assert(refresh_one(mid, mid.workspaces, name@).0 =~= step_activated(pre, id).0);
            assert(refresh_one(mid, mid.workspaces, name@).1 == step_activated(pre, id).1);
        }
        emitted
    }

    /// A workspace gained or lost a window: patch its record and refresh
    /// its output, if it has one.
    fn apply_window(&mut self, id: u64, has_active_window: bool) -> (emitted: Vec<OutputInfo>)
        ensures
            final(self)@ == step_window(old(self)@, id, has_active_window).0,
            out_view(emitted@) == step_window(old(self)@, id, has_active_window).1,
    {
        let ghost pre = self@;
        let found = find_ws_index(&self.workspaces, id);
        let k = match found {
            Some(k) => k,
            None => {
                let r: Vec<OutputInfo> = Vec::new();
                proof {
                    assert(out_view(r@) =~= Seq::<OutputInfoV>::empty());
                }
                return r;
            },
        };
        let out_name: Option<String> = match &self.workspaces[k].output {
            Some(n) => Some(n.clone()),
            None => None,
        };
        proof {
            assert(find_ws(pre.workspaces, id) == Some(pre.workspaces[k as int]));
            assert(opt_str_view(out_name) == pre.workspaces[k as int].output);
        }
        let recs2 = apply_window_change(&self.workspaces, id, has_active_window, &out_name);
        self.workspaces = recs2;
        let ghost mid = self@;
        proof {
            assert(mid.workspaces == set_window(
                pre.workspaces,
                id,
                has_active_window,
                pre.workspaces[k as int].output,
            ));
            assert(mid.outputs == pre.outputs);
            assert(mid.overview_open == pre.overview_open);
        }
        match out_name {
            Some(name) => {
                let emitted = self.refresh_output(&name);
                proof {
                    assert(refresh_one(mid, mid.workspaces, name@).0 =~= step_window(
                        pre,
                        id,
                        has_active_window,
                    ).0);
                    assert(refresh_one(mid, mid.workspaces, name@).1 == step_window(
                        pre,
                        id,
                        has_active_window,
                    ).1);
                }
                emitted
            },
            None => {
                let r: Vec<OutputInfo> = Vec::new();
                proof {
                    assert(out_view(r@) =~= Seq::<OutputInfoV>::empty());
                    assert(self@ =~= step_window(pre, id, has_active_window).0);
                }
                r
            },
        }
    }

    /// The overview opened or closed: recompute every output and emit
    /// exactly those whose snapshot changed.
    fn apply_overview(&mut self, is_open: bool) -> (emitted: Vec<OutputInfo>)
        ensures
            final(self)@ == step_overview(old(self)@, is_open).0,
            out_view(emitted@) == step_overview(old(self)@, is_open).1,
    {
        let ghost ov0 = out_view(self.outputs@);
        let ghost rv = rec_view(self.workspaces@);
        let ghost goal = ov0.map_values(|e: OutputInfoV| info_of(rv, e.name, is_open));
        let mut newouts: Vec<OutputInfo> = Vec::new();
        let mut emitted: Vec<OutputInfo> = Vec::new();
        let mut i: usize = 0;
        proof {
            assert(out_view(newouts@) =~= goal.take(0));
            assert(ov0.take(0) =~= Seq::<OutputInfoV>::empty());
            assert(goal.take(0) =~= Seq::<OutputInfoV>::empty());
            assert(out_view(emitted@) =~= changed_entries(ov0.take(0), goal.take(0)));
        }
        while i < self.outputs.len()
            invariant
                0 <= i <= self.outputs@.len(),
                ov0 == out_view(self.outputs@),
                rv == rec_view(self.workspaces@),
                goal == ov0.map_values(|e: OutputInfoV| info_of(rv, e.name, is_open)),
                goal.len() == self.outputs@.len(),
                out_view(newouts@) == goal.take(i as int),
                out_view(emitted@) == changed_entries(ov0.take(i as int), goal.take(i as int)),
            decreases self.outputs@.len() - i,
        {
            let ghost outs0 = out_view(newouts@);
            let ghost em0 = out_view(emitted@);
            let info = compute_info(&self.workspaces, &self.outputs[i].name, is_open);
            proof {
                assert(ov0[i as int] == self.outputs@[i as int]@);
                assert(info@ == goal[i as int]);
            }
            let changed = !info.same_view(&self.outputs[i]);
            if changed {
                emitted.push(dup_output(&info));
            }
            newouts.push(info);
            proof {
                assert(goal.take(i as int + 1) =~= goal.take(i as int).push(goal[i as int]));
                assert(ov0.take(i as int + 1) =~= ov0.take(i as int).push(ov0[i as int]));
                assert(goal.take(i as int + 1).drop_last() =~= goal.take(i as int));
                assert(ov0.take(i as int + 1).drop_last() =~= ov0.take(i as int));
                assert(out_view(newouts@) =~= outs0.push(goal[i as int]));
                if changed {
                    assert(out_view(emitted@) =~= em0.push(goal[i as int]));
                    assert(changed_entries(ov0.take(i as int + 1), goal.take(i as int + 1))
                        == changed_entries(ov0.take(i as int), goal.take(i as int)).push(
                        goal[i as int],
                    ));
                } else {
                    assert(changed_entries(ov0.take(i as int + 1), goal.take(i as int + 1))
                        == changed_entries(ov0.take(i as int), goal.take(i as int)));
                }
            }
            i += 1;
        }
        let ghost n = self.outputs@.len() as int;
        self.outputs = newouts;
        self.overview_open = is_open;
        proof {
            assert(goal.take(n) =~= goal);
            assert(ov0.take(n) =~= ov0);
            assert(self@ =~= step_overview(old(self)@, is_open).0);
        }
        emitted
    }
}

// ---------------------------------------------------------------------------
// Shape of the groups: sortedness and provenance.
// ---------------------------------------------------------------------------

/// Insertion keeps the list sorted and adds exactly the new record.
proof fn lemma_insert_by_idx_shape(s: Seq<NiriWorkspaceV>, w: NiriWorkspaceV)
    requires
        sorted_by_idx(s),
    ensures
        sorted_by_idx(insert_by_idx(s, w)),
        insert_by_idx(s, w).len() == s.len() + 1,
        forall|i: int|
            0 <= i < insert_by_idx(s, w).len() ==> (insert_by_idx(s, w)[i] == w || s.contains(
                insert_by_idx(s, w)[i],
            )),
    decreases s.len(),
{
    let r = insert_by_idx(s, w);
    if s.len() == 0 {
        assert(r =~= seq![w]);
    } else if s.last().idx <= w.idx {
        assert(r == s.push(w));
        assert forall|i: int, j: int| 0 <= i < j < r.len() implies r[i].idx <= r[j].idx by {
            if j == r.len() - 1 {
                if i < s.len() - 1 {
                    assert(s[i].idx <= s[s.len() - 1].idx);
                }
            }
        }
        assert forall|i: int| 0 <= i < r.len() implies (r[i] == w || s.contains(r[i])) by {
            if i < s.len() {
                assert(r[i] == s[i]);
            }
        }
    } else {
        let d = s.drop_last();
        assert forall|i: int, j: int| 0 <= i < j < d.len() implies d[i].idx <= d[j].idx by {
            assert(d[i] == s[i]);
            assert(d[j] == s[j]);
        }
        lemma_insert_by_idx_shape(d, w);
        let r0 = insert_by_idx(d, w);
        assert(r == r0.push(s.last()));
        assert forall|i: int, j: int| 0 <= i < j < r.len() implies r[i].idx <= r[j].idx by {
            if j == r.len() - 1 {
                assert(r[i] == r0[i]);
                if r0[i] == w {
                    assert(w.idx <= s.last().idx);
                } else {
                    let m = choose|m: int| 0 <= m < d.len() && d[m] == r0[i];
                    assert(s[m].idx <= s[s.len() - 1].idx);
                }
            } else {
                assert(r[i] == r0[i]);
                assert(r[j] == r0[j]);
            }
        }
        assert forall|i: int| 0 <= i < r.len() implies (r[i] == w || s.contains(r[i])) by {
            if i < r0.len() {
                assert(r[i] == r0[i]);
                if r0[i] != w {
                    let m = choose|m: int| 0 <= m < d.len() && d[m] == r0[i];
                    assert(s[m] == r0[i]);
                }
            } else {
                assert(r[i] == s[s.len() - 1]);
            }
        }
    }
}

/// Every group is sorted ascending by compositor index and consists
/// exactly of records of that output.
pub proof fn lemma_grouped_shape(s: Seq<NiriWorkspaceV>, name: Seq<char>)
    ensures
        sorted_by_idx(grouped(s, name)),
        forall|i: int|
            0 <= i < grouped(s, name).len() ==> (s.contains(#[trigger] grouped(s, name)[i])
                && grouped(s, name)[i].output == Some(name)),
    decreases s.len(),
{
    let g = grouped(s, name);
    if s.len() > 0 {
        let d = s.drop_last();
        lemma_grouped_shape(d, name);
        let rest = grouped(d, name);
        assert forall|i: int| 0 <= i < rest.len() implies (s.contains(rest[i]) && rest[i].output
            == Some(name)) by {
            let m = choose|m: int| 0 <= m < d.len() && d[m] == rest[i];
            assert(s[m] == rest[i]);
        }
        if s.last().output == Some(name) {
            lemma_insert_by_idx_shape(rest, s.last());
            assert(s[s.len() - 1] == s.last());
            assert forall|i: int| 0 <= i < g.len() implies (s.contains(#[trigger] g[i])
                && g[i].output == Some(name)) by {
                if g[i] != s.last() {
                    assert(rest.contains(g[i]));
                    let m = choose|m: int| 0 <= m < rest.len() && rest[m] == g[i];
                }
            }
        }
    }
}

// ---------------------------------------------------------------------------
// Two-sided characterizations of the searches.
// ---------------------------------------------------------------------------

/// What `find_ws` returns, in terms of positions.
pub proof fn lemma_find_ws_char(s: Seq<NiriWorkspaceV>, id: u64)
    ensures
        match find_ws(s, id) {
            None => forall|j: int| 0 <= j < s.len() ==> s[j].id != id,
            Some(w) => exists|k: int|
                0 <= k < s.len() && s[k] == w && w.id == id && (forall|j: int|
                    0 <= j < k ==> s[j].id != id),
        },
    decreases s.len(),
{
    if s.len() > 0 && s.first().id != id {
        let rest = s.drop_first();
        lemma_find_ws_char(rest, id);
        assert(forall|j: int| 0 <= j < rest.len() ==> rest[j] == s[j + 1]);
        match find_ws(rest, id) {
            None => {
                assert forall|j: int| 0 <= j < s.len() implies s[j].id != id by {
                    if j > 0 {
                        assert(rest[j - 1] == s[j]);
                    }
                }
            },
            Some(w) => {
                let k = choose|k: int|
                    0 <= k < rest.len() && rest[k] == w && w.id == id && (forall|j: int|
                        0 <= j < k ==> rest[j].id != id);
                assert(s[k + 1] == w);
                assert forall|j: int| 0 <= j < k + 1 implies s[j].id != id by {
                    if j > 0 {
                        assert(rest[j - 1] == s[j]);
                    }
                }
            },
        }
    }
}

/// What `find_output` returns, in terms of positions.
pub proof fn lemma_find_output_char(outs: Seq<OutputInfoV>, name: Seq<char>)
    ensures
        match find_output(outs, name) {
            None => forall|j: int| 0 <= j < outs.len() ==> outs[j].name != name,
            Some(k) => 0 <= k < outs.len() && outs[k].name == name && (forall|j: int|
                0 <= j < k ==> outs[j].name != name),
        },
    decreases outs.len(),
{
    if outs.len() > 0 && outs.first().name != name {
        let rest = outs.drop_first();
        lemma_find_output_char(rest, name);
        assert(forall|j: int| 0 <= j < rest.len() ==> rest[j] == outs[j + 1]);
        match find_output(rest, name) {
            None => {
                assert forall|j: int| 0 <= j < outs.len() implies outs[j].name != name by {
                    if j > 0 {
                        assert(rest[j - 1] == outs[j]);
                    }
                }
            },
            Some(k) => {
                assert(rest[k] == outs[k + 1]);
                assert forall|j: int| 0 <= j < k + 1 implies outs[j].name != name by {
                    if j > 0 {
                        assert(rest[j - 1] == outs[j]);
                    }
                }
            },
        }
    }
}

/// An entry of `new` that differs from its counterpart is emitted.
proof fn lemma_changed_entries_contains(a: Seq<OutputInfoV>, b: Seq<OutputInfoV>, k: int)
    requires
        a.len() == b.len(),
        0 <= k < b.len(),
        b[k] != a[k],
    ensures
        changed_entries(a, b).contains(b[k]),
    decreases b.len(),
{
    let rest = changed_entries(a.drop_last(), b.drop_last());
    if k == b.len() - 1 {
        assert(b.last() == b[k]);
        assert(a.last() == a[k]);
        assert(changed_entries(a, b) == rest.push(b[k]));
        assert(changed_entries(a, b)[rest.len() as int] == b[k]);
    } else {
        assert(a.drop_last()[k] == a[k]);
        assert(b.drop_last()[k] == b[k]);
        lemma_changed_entries_contains(a.drop_last(), b.drop_last(), k);
        let m = choose|m: int| 0 <= m < rest.len() && rest[m] == b[k];
        if b.last() == a.last() {
            assert(changed_entries(a, b) == rest);
        } else {
            assert(changed_entries(a, b) == rest.push(b.last()));
            assert(changed_entries(a, b)[m] == b[k]);
        }
    }
}

// ---------------------------------------------------------------------------
// Laws of the fold.
// ---------------------------------------------------------------------------

/// In every state the fold can reach, each stored snapshot is the canonical
/// one: its workspace list follows its output's records sorted ascending by
/// compositor index, every listed record belongs to the stored records of
/// that output, and the active index, if present, points at the first
/// record flagged active.
pub proof fn lemma_snapshot_canonical(s: NiriStateV, k: int)
    requires
        state_inv(s),
        0 <= k < s.outputs.len(),
    ensures
        ({
            let entry = s.outputs[k];
            let g = grouped(s.workspaces, entry.name);
            &&& entry == info_of(s.workspaces, entry.name, s.overview_open)
            &&& sorted_by_idx(g)
            &&& forall|i: int|
                0 <= i < g.len() ==> (s.workspaces.contains(#[trigger] g[i]) && g[i].output
                    == Some(entry.name))
            &&& entry.workspaces.len() == g.len()
            &&& forall|i: int|
                0 <= i < g.len() ==> (#[trigger] entry.workspaces[i]).has_windows
                    == g[i].has_active_window
            &&& match entry.active_workspace_idx {
                Some(i) => 0 <= i < g.len() && g[i].is_active && (forall|j: int|
                    0 <= j < i ==> !g[j].is_active),
                None => forall|i: int| 0 <= i < g.len() ==> !g[i].is_active,
            }
        }),
{
    let names = output_names(s.workspaces);
    assert(s.outputs[k] == info_of(s.workspaces, names[k], s.overview_open));
    assert(s.outputs[k].name == names[k]);
    let entry = s.outputs[k];
    let g = grouped(s.workspaces, entry.name);
    lemma_grouped_shape(s.workspaces, entry.name);
    lemma_first_active_char(g);
    assert(entry.workspaces == g.map_values(
        |w: NiriWorkspaceV| WorkspaceInfo { has_windows: w.has_active_window },
    ));
}

/// In every state the fold can reach, a snapshot shows a transparent bar
/// exactly when the overview is open or its output has no active workspace
/// with windows.
pub proof fn lemma_show_transparent_rule(s: NiriStateV, k: int)
    requires
        state_inv(s),
        0 <= k < s.outputs.len(),
    ensures
        s.outputs[k].show_transparent == (s.overview_open || !any_active_with_windows(
            grouped(s.workspaces, s.outputs[k].name),
        )),
{
    let names = output_names(s.workspaces);
    assert(s.outputs[k] == info_of(s.workspaces, names[k], s.overview_open));
    assert(s.outputs[k].name == names[k]);
}

/// Delivering the same activation twice in a row is idempotent: the second
/// delivery leaves the state untouched and emits nothing, so at most one
/// update reaches the consumer.
pub proof fn lemma_activation_idempotent(s: NiriStateV, id: u64)
    requires
        state_inv(s),
    ensures
        ({
            let ev = DesktopEvent::WorkspaceActivated { id };
            let s1 = step_state(s, ev);
            &&& step_state(s1, ev) == s1
            &&& step_emits(s1, ev) == Seq::<OutputInfoV>::empty()
        }),
{
    let ev = DesktopEvent::WorkspaceActivated { id };
    let s1 = step_state(s, ev);
    lemma_step_activated_inv(s, id);
    lemma_find_ws_char(s.workspaces, id);
    match find_ws(s.workspaces, id) {
        None => {
            assert(s1 == s);
        },
        Some(w) => match w.output {
            None => {
                assert(s1 == s);
            },
            Some(name) => {
                let ov = s.overview_open;
                let recs1 = activate(s.workspaces, id, name);
                let info1 = info_of(recs1, name, ov);
                let k0 = choose|k: int|
                    0 <= k < s.workspaces.len() && s.workspaces[k] == w && w.id == id && (
                    forall|j: int| 0 <= j < k ==> s.workspaces[j].id != id);
                assert(recs1[k0] == NiriWorkspaceV { is_active: true, ..w });
                assert forall|j: int| 0 <= j < k0 implies recs1[j].id != id by {
                    assert(recs1[j].id == s.workspaces[j].id);
                }
                lemma_find_ws_at(recs1, id, k0);
                let w1 = recs1[k0];
                assert(find_ws(s1.workspaces, id) == Some(w1));
                assert(w1.output == Some(name));
                // Activating again rewrites nothing.
                let recs2 = activate(recs1, id, name);
                assert forall|i: int| 0 <= i < recs1.len() implies recs2[i] == recs1[i] by {
                    assert(recs1[i] == (if s.workspaces[i].output == Some(name) {
                        NiriWorkspaceV { is_active: s.workspaces[i].id == id, ..s.workspaces[i] }
                    } else {
                        s.workspaces[i]
                    }));
                }
                assert(recs2 =~= recs1);
                // The stored snapshot already equals the recomputation.
                assert(state_inv(s1));
                let names1 = output_names(s1.workspaces);
                assert forall|i: int| 0 <= i < s.workspaces.len() implies recs1[i].output
                    == s.workspaces[i].output by {}
                lemma_output_names_covers(recs1, Seq::empty(), name);
                let p = choose|p: int| 0 <= p < names1.len() && names1[p] == name;
                assert(s1.outputs[p].name == names1[p]);
                lemma_find_output_char(s1.outputs, name);
                match find_output(s1.outputs, name) {
                    None => {
                        assert(s1.outputs[p].name != name);
                        assert(false);
                    },
                    Some(j) => {
                        assert(s1.outputs[j] == info_of(recs1, names1[j], ov));
                        assert(names1[j] == name);
                        assert(s1.outputs[j] == info1);
                    },
                }
                // Replacing with the same value changes nothing.
                let outs2 = replace_output(s1.outputs, name, info1);
                assert forall|i: int| 0 <= i < s1.outputs.len() implies outs2[i] == s1.outputs[i] by {
                    if s1.outputs[i].name == name {
                        assert(s1.outputs[i] == info_of(recs1, names1[i], ov));
                        assert(names1[i] == s1.outputs[i].name);
                    }
                }
                assert(outs2 =~= s1.outputs);
                assert(step_state(s1, ev) =~= s1);
            },
        },
    }
}

/// Opening the overview while an output's active workspace has windows
/// flips that output's bar to transparent and emits it; closing the
/// overview right after flips it back and emits again.
pub proof fn lemma_overview_toggle(s: NiriStateV, k: int)
    requires
        state_inv(s),
        !s.overview_open,
        0 <= k < s.outputs.len(),
        any_active_with_windows(grouped(s.workspaces, s.outputs[k].name)),
    ensures
        ({
            let open_ev = DesktopEvent::OverviewOpenedOrClosed { is_open: true };
            let close_ev = DesktopEvent::OverviewOpenedOrClosed { is_open: false };
            let s1 = step_state(s, open_ev);
            let e1 = step_emits(s, open_ev);
            let s2 = step_state(s1, close_ev);
            let e2 = step_emits(s1, close_ev);
            &&& !s.outputs[k].show_transparent
            &&& s1.outputs.len() == s.outputs.len()
            &&& s1.outputs[k].show_transparent
            &&& e1.contains(s1.outputs[k])
            &&& s2.outputs.len() == s.outputs.len()
            &&& s2.outputs[k] == s.outputs[k]
            &&& e2.contains(s2.outputs[k])
        }),
{
    let names = output_names(s.workspaces);
    assert(s.outputs[k] == info_of(s.workspaces, names[k], s.overview_open));
    assert(s.outputs[k].name == names[k]);
    let entry = s.outputs[k];
    let name = entry.name;
    let open_ev = DesktopEvent::OverviewOpenedOrClosed { is_open: true };
    let close_ev = DesktopEvent::OverviewOpenedOrClosed { is_open: false };
    let s1 = step_state(s, open_ev);
    let e1 = step_emits(s, open_ev);
    assert(s1.outputs[k] == info_of(s.workspaces, name, true));
    assert(s1.outputs[k].show_transparent);
    assert(s1.outputs[k] != entry);
    lemma_changed_entries_contains(s.outputs, s1.outputs, k);
    assert(s1.workspaces == s.workspaces);
    let s2 = step_state(s1, close_ev);
    let e2 = step_emits(s1, close_ev);
    assert(s1.outputs[k].name == name);
    assert(s2.outputs[k] == info_of(s.workspaces, name, false));
    assert(s2.outputs[k] =~= entry);
    assert(s2.outputs[k] != s1.outputs[k]);
    lemma_changed_entries_contains(s1.outputs, s2.outputs, k);
}

/// Every listed output name is the output of some record.
proof fn lemma_output_names_sources(s: Seq<NiriWorkspaceV>, acc: Seq<Seq<char>>, x: Seq<char>)
    requires
        output_names_from(s, acc).contains(x),
    ensures
        acc.contains(x) || exists|i: int| 0 <= i < s.len() && s[i].output == Some(x),
    decreases s.len(),
{
    if s.len() > 0 {
        let acc2 = match s.first().output {
            Some(m) => if acc.contains(m) {
                acc
            } else {
                acc.push(m)
            },
            None => acc,
        };
        lemma_output_names_sources(s.drop_first(), acc2, x);
        if acc2.contains(x) && !acc.contains(x) {
            let k = choose|k: int| 0 <= k < acc2.len() && acc2[k] == x;
            assert(s.first().output == Some(x));
            assert(s[0].output == Some(x));
        } else if !acc2.contains(x) {
            let i = choose|i: int|
                0 <= i < s.drop_first().len() && s.drop_first()[i].output == Some(x);
            assert(s[i + 1].output == Some(x));
        }
    }
}

/// Every snapshot the fold stores is well formed, provided the compositor
/// names its outputs with nonempty names: the snapshot's name is nonempty
/// and its active index, if present, is a valid position in its workspace
/// list.
pub proof fn lemma_snapshot_wf(s: NiriStateV, k: int)
    requires
        state_inv(s),
        0 <= k < s.outputs.len(),
        forall|i: int|
            0 <= i < s.workspaces.len() ==> match (#[trigger] s.workspaces[i]).output {
                Some(n) => n.len() > 0,
                None => true,
            },
    ensures
        s.outputs[k].wf(),
{
    let names = output_names(s.workspaces);
    assert(s.outputs[k] == info_of(s.workspaces, names[k], s.overview_open));
    assert(names.contains(names[k]));
    lemma_output_names_sources(s.workspaces, Seq::empty(), names[k]);
    let i = choose|i: int| 0 <= i < s.workspaces.len() && s.workspaces[i].output == Some(names[k]);
    assert(names[k].len() > 0);
    let g = grouped(s.workspaces, names[k]);
    lemma_first_active_char(g);
}

/// Event kinds the fold does not recognize change nothing and emit
/// nothing.
pub proof fn lemma_other_event_no_effect(s: NiriStateV)
    ensures
        step_state(s, DesktopEvent::Other) == s,
        step_emits(s, DesktopEvent::Other) == Seq::<OutputInfoV>::empty(),
{
}

} // verus!
