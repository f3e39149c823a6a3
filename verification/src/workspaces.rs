//! The bar's workspace buttons: which workspaces are shown, in what order, how
//! each button looks and what clicking it asks of Hyprland.

use vstd::prelude::*;

use crate::hypr::{Monitor, Workspace, WorkspaceId, WorkspaceSelector};
use crate::sort::sort_stable;
use crate::text::same_text;

verus! {

/// The top bar.
pub struct Bar;

/// The row of workspace buttons.
pub struct WorkspacesWidget;

/// Which workspaces the bar shows.
#[derive(Clone, Copy)]
pub struct WorkspaceFilter {
    /// Show workspaces without windows. Hyprland only reports empty workspaces that
    /// are persistent or currently focused.
    pub show_empty: bool,
    /// Show special (scratchpad) workspaces, whose ids are not positive.
    pub show_special: bool,
}

/// One button of the row.
#[derive(Clone, Debug, PartialEq, Eq)]
pub struct BarEntry {
    pub id: WorkspaceId,
    pub name: String,
    pub windows: u16,
}

/// What the row shows.
#[derive(Clone, Debug, PartialEq, Eq)]
pub struct Snapshot {
    /// Shown workspaces, by id.
    pub workspaces: Vec<BarEntry>,
    /// The active workspace of the focused monitor.
    pub active: Option<WorkspaceId>,
    /// The active workspace of every monitor.
    pub visible: Vec<WorkspaceId>,
}

/// Names of the events after which the row may be stale: workspaces, monitors and
/// windows come, go or move.
pub open spec fn refresh_event(name: Seq<char>) -> bool {
    name == "workspace"@
        || name == "createworkspace"@
        || name == "destroyworkspace"@
        || name == "moveworkspace"@
        || name == "renameworkspace"@
        || name == "focusedmon"@
        || name == "monitoradded"@
        || name == "monitorremoved"@
        || name == "openwindow"@
        || name == "closewindow"@
        || name == "movewindow"@
}

/// See [`refresh_event`].
pub fn needs_refresh(name: &str) -> (r: bool)
    ensures
        r == refresh_event(name@),
{
    same_text(name, "workspace")
        || same_text(name, "createworkspace")
        || same_text(name, "destroyworkspace")
        || same_text(name, "moveworkspace")
        || same_text(name, "renameworkspace")
        || same_text(name, "focusedmon")
        || same_text(name, "monitoradded")
        || same_text(name, "monitorremoved")
        || same_text(name, "openwindow")
        || same_text(name, "closewindow")
        || same_text(name, "movewindow")
}

pub open spec fn shown(f: WorkspaceFilter, w: Workspace) -> bool {
    (f.show_special || w.id > 0) && (f.show_empty || w.windows > 0)
}

/// A key that orders workspace ids.
pub open spec fn id_key(id: WorkspaceId) -> u64 {
    (id as int + 0x8000_0000) as u64
}

/// The shown workspaces, in the order Hyprland listed them, keyed by id.
pub open spec fn kept(ws: Seq<Workspace>, f: WorkspaceFilter) -> Seq<(u64, BarEntry)>
    decreases ws.len(),
{
    if ws.len() == 0 {
        Seq::empty()
    } else {
        let w = ws[0];
        let rest = kept(ws.drop_first(), f);
        if shown(f, w) {
            seq![(id_key(w.id), BarEntry { id: w.id, name: w.name, windows: w.windows })] + rest
        } else {
            rest
        }
    }
}

/// The active workspace of the first focused monitor.
pub open spec fn focused_active(ms: Seq<Monitor>) -> Option<WorkspaceId>
    decreases ms.len(),
{
    if ms.len() == 0 {
        None
    } else if ms[0].focused {
        Some(ms[0].active_workspace.id)
    } else {
        focused_active(ms.drop_first())
    }
}

/// The row for the workspaces and monitors Hyprland reported: the shown workspaces
/// sorted by id (stably), the focused monitor's active workspace and every monitor's.
pub fn snapshot(filter: WorkspaceFilter, workspaces: Vec<Workspace>, monitors: &Vec<Monitor>) -> (r:
    Snapshot)
    ensures
        r.workspaces@ == crate::sort::sort_by_key(kept(workspaces@, filter)).map_values(
            |x: (u64, BarEntry)| x.1,
        ),
        r.active == focused_active(monitors@),
        r.visible@ == monitors@.map_values(|m: Monitor| m.active_workspace.id),
{
    let ghost orig = workspaces@;
    let mut input = workspaces;
    let mut keyed: Vec<(u64, BarEntry)> = Vec::new();
    assert(input@ =~= orig.skip(0));
    while input.len() > 0
        invariant
            input@ == orig.skip(orig.len() - input@.len()),
            input@.len() <= orig.len(),
            keyed@ + kept(input@, filter) == kept(orig, filter),
        decreases input@.len(),
    {
        let ghost before = input@;
        let w = input.remove(0);
        assert(input@ =~= before.drop_first());
        assert(input@ =~= orig.skip(orig.len() - input@.len()));
        if (filter.show_special || w.id > 0) && (filter.show_empty || w.windows > 0) {
            let key = (w.id as i64 + 0x8000_0000i64) as u64;
            let ghost k = keyed@;
            keyed.push((key, BarEntry { id: w.id, name: w.name, windows: w.windows }));
            assert(keyed@ + kept(input@, filter) =~= k + kept(before, filter));
        }
    }
    assert(keyed@ =~= kept(orig, filter));
    sort_stable(&mut keyed);
    let ghost sorted = keyed@;
    let mut shown_entries: Vec<BarEntry> = Vec::new();
    while keyed.len() > 0
        invariant
            keyed@ == sorted.skip(sorted.len() - keyed@.len()),
            keyed@.len() <= sorted.len(),
            shown_entries@ == sorted.take(sorted.len() - keyed@.len()).map_values(
                |x: (u64, BarEntry)| x.1,
            ),
        decreases keyed@.len(),
    {
        let ghost before = keyed@;
        let ghost done = sorted.len() - keyed@.len();
        let (_, entry) = keyed.remove(0);
        assert(keyed@ =~= sorted.skip(sorted.len() - keyed@.len()));
        shown_entries.push(entry);
        assert(shown_entries@ =~= sorted.take(sorted.len() - keyed@.len()).map_values(
            |x: (u64, BarEntry)| x.1,
        ));
    }
    assert(sorted.take(sorted.len() as int) =~= sorted);
    let mut active: Option<WorkspaceId> = None;
    let mut visible: Vec<WorkspaceId> = Vec::new();
    let mut i: usize = 0;
    assert(monitors@.skip(0) =~= monitors@);
    while i < monitors.len()
        invariant
            i <= monitors@.len(),
            visible@ == monitors@.take(i as int).map_values(|m: Monitor| m.active_workspace.id),
            focused_active(monitors@) == match active {
                Some(a) => Some(a),
                None => focused_active(monitors@.skip(i as int)),
            },
        decreases monitors@.len() - i,
    {
        let m = &monitors[i];
        if active.is_none() && m.focused {
            active = Some(m.active_workspace.id);
        }
        assert(monitors@.skip(i as int).drop_first() =~= monitors@.skip(i + 1));
        visible.push(m.active_workspace.id);
        assert(visible@ =~= monitors@.take(i + 1).map_values(|m: Monitor| m.active_workspace.id));
        i = i + 1;
    }
    assert(monitors@.take(i as int) =~= monitors@);
    Snapshot { workspaces: shown_entries, active, visible }
}

/// How a workspace button looks.
#[derive(Clone, Debug, PartialEq, Eq)]
pub enum ButtonLook {
    /// The focused monitor's active workspace: accent fill.
    Active,
    /// Shown on another monitor: outlined.
    Visible,
    /// Has windows: surface fill.
    Occupied,
    /// Neither: no fill, dim text.
    Empty,
}

pub open spec fn look_spec(s: Snapshot, e: BarEntry) -> ButtonLook {
    if s.active == Some(e.id) {
        ButtonLook::Active
    } else if s.visible@.contains(e.id) {
        ButtonLook::Visible
    } else if e.windows > 0 {
        ButtonLook::Occupied
    } else {
        ButtonLook::Empty
    }
}

/// How a button looks: the focused monitor's active workspace is accented; any other
/// workspace that some monitor shows is outlined, however many windows it has; any
/// other workspace is filled when it has windows and left plain when it has none.
pub proof fn law_button_looks(s: Snapshot, e: BarEntry)
    ensures
        s.active == Some(e.id) ==> look_spec(s, e) == ButtonLook::Active,
        forall|k: int|
            0 <= k < s.visible@.len() && #[trigger] s.visible@[k] == e.id && s.active != Some(e.id)
                ==> look_spec(s, e) == ButtonLook::Visible,
        s.active != Some(e.id) && (forall|k: int| 0 <= k < s.visible@.len() ==> #[trigger] s.visible@[k] != e.id)
            ==> look_spec(s, e) == if e.windows > 0 {
            ButtonLook::Occupied
        } else {
            ButtonLook::Empty
        },
{
    assert forall|k: int|
        0 <= k < s.visible@.len() && #[trigger] s.visible@[k] == e.id && s.active != Some(e.id)
            implies look_spec(s, e) == ButtonLook::Visible by {
        assert(s.visible@.contains(e.id));
    }
}

impl WorkspacesWidget {
    /// How the button of `entry` looks.
    pub fn look(snapshot: &Snapshot, entry: &BarEntry) -> (r: ButtonLook)
        ensures
            r == look_spec(*snapshot, *entry),
            snapshot.active != Some(entry.id) && snapshot.visible@.contains(entry.id) ==> r
                == ButtonLook::Visible,
    {
        if snapshot.active == Some(entry.id) {
            return ButtonLook::Active;
        }
        let mut i: usize = 0;
        while i < snapshot.visible.len()
            invariant
                i <= snapshot.visible@.len(),
                snapshot.active != Some(entry.id),
                forall|k: int| 0 <= k < i ==> snapshot.visible@[k] != entry.id,
            decreases snapshot.visible@.len() - i,
        {
            if snapshot.visible[i] == entry.id {
                assert(snapshot.visible@[i as int] == entry.id);
                assert(snapshot.visible@.contains(entry.id));
                return ButtonLook::Visible;
            }
            i = i + 1;
        }
        assert(!snapshot.visible@.contains(entry.id));
        if entry.windows > 0 {
            ButtonLook::Occupied
        } else {
            ButtonLook::Empty
        }
    }

    /// What clicking the button of `entry` focuses: nothing when it is already the
    /// active workspace, else the workspace by id, or by name for special workspaces
    /// (ids not positive), whose name (`special:foo`) Hyprland resolves.
    pub fn click_target<'a>(snapshot: &Snapshot, entry: &'a BarEntry) -> (r: Option<
        WorkspaceSelector<'a>,
    >)
        ensures
            snapshot.active == Some(entry.id) ==> r is None,
            snapshot.active != Some(entry.id) && entry.id > 0 ==> r == Some(
                WorkspaceSelector::Id(entry.id),
            ),
            snapshot.active != Some(entry.id) && entry.id <= 0 ==> (r matches Some(
                WorkspaceSelector::Name(n),
            ) && n@ == entry.name@),
    {
        if snapshot.active == Some(entry.id) {
            None
        } else if entry.id > 0 {
            Some(WorkspaceSelector::Id(entry.id))
        } else {
            Some(WorkspaceSelector::Name(entry.name.as_str()))
        }
    }
}


proof fn lemma_kept(ws: Seq<Workspace>, f: WorkspaceFilter)
    ensures
        forall|k: int| 0 <= k < kept(ws, f).len() ==> {
            let x = #[trigger] kept(ws, f)[k];
            &&& x.0 == id_key(x.1.id)
            &&& exists|j: int| 0 <= j < ws.len() && shown(f, ws[j]) && ws[j].id == x.1.id
                && ws[j].name == x.1.name && ws[j].windows == x.1.windows
        },
    decreases ws.len(),
{
    if ws.len() > 0 {
        lemma_kept(ws.drop_first(), f);
        let rest = kept(ws.drop_first(), f);
        let w = ws[0];
        if shown(f, w) {
            let x0 = (id_key(w.id), BarEntry { id: w.id, name: w.name, windows: w.windows });
            let r = seq![x0] + rest;
            assert forall|k: int| 0 <= k < r.len() implies {
                let x = #[trigger] r[k];
                &&& x.0 == id_key(x.1.id)
                &&& exists|j: int| 0 <= j < ws.len() && shown(f, ws[j]) && ws[j].id == x.1.id
                    && ws[j].name == x.1.name && ws[j].windows == x.1.windows
            } by {
                if k == 0 {
                    assert(r[0] == x0);
                    assert(shown(f, ws[0]));
                } else {
                    assert(r[k] == rest[k - 1]);
                    let x = rest[k - 1];
                    let j = choose|j: int| 0 <= j < ws.drop_first().len() && shown(f, ws.drop_first()[j])
                        && ws.drop_first()[j].id == x.1.id && ws.drop_first()[j].name == x.1.name
                        && ws.drop_first()[j].windows == x.1.windows;
                    assert(ws[j + 1] == ws.drop_first()[j]);
                }
            }
        } else {
            assert forall|k: int| 0 <= k < rest.len() implies {
                let x = #[trigger] rest[k];
                &&& x.0 == id_key(x.1.id)
                &&& exists|j: int| 0 <= j < ws.len() && shown(f, ws[j]) && ws[j].id == x.1.id
                    && ws[j].name == x.1.name && ws[j].windows == x.1.windows
            } by {
                let x = rest[k];
                let j = choose|j: int| 0 <= j < ws.drop_first().len() && shown(f, ws.drop_first()[j])
                    && ws.drop_first()[j].id == x.1.id && ws.drop_first()[j].name == x.1.name
                    && ws.drop_first()[j].windows == x.1.windows;
                assert(ws[j + 1] == ws.drop_first()[j]);
            }
        }
    }
}

/// The row shows only workspaces the filter lets through, in increasing id order.
pub proof fn law_row_is_filtered_and_sorted(ws: Seq<Workspace>, f: WorkspaceFilter)
    ensures
        ({
            let row = crate::sort::sort_by_key(kept(ws, f)).map_values(|x: (u64, BarEntry)| x.1);
            &&& forall|a: int, b: int| 0 <= a < b < row.len() ==> (#[trigger] row[a]).id <= (#[trigger] row[b]).id
            &&& forall|k: int| 0 <= k < row.len() ==> exists|j: int| 0 <= j < ws.len() && shown(f, ws[j])
                && ws[j].id == (#[trigger] row[k]).id
        }),
{
    let kp = kept(ws, f);
    let sorted = crate::sort::sort_by_key(kp);
    let row = sorted.map_values(|x: (u64, BarEntry)| x.1);
    lemma_kept(ws, f);
    crate::sort::lemma_sort_by_key_sorted(kp);
    crate::sort::lemma_sort_by_key_items(kp);
    crate::sort::lemma_sort_by_key_len(kp);
    assert forall|k: int| 0 <= k < sorted.len() implies (#[trigger] sorted[k]).0 == id_key(sorted[k].1.id) by {
        assert(sorted.contains(sorted[k]));
        let j = choose|j: int| 0 <= j < kp.len() && kp[j] == sorted[k];
    }
    assert forall|a: int, b: int| 0 <= a < b < row.len() implies (#[trigger] row[a]).id <= (#[trigger] row[b]).id by {
        assert(sorted[a].0 <= sorted[b].0);
        assert(sorted[a].0 == id_key(sorted[a].1.id));
        assert(sorted[b].0 == id_key(sorted[b].1.id));
    }
    assert forall|k: int| 0 <= k < row.len() implies exists|j: int| 0 <= j < ws.len() && shown(f, ws[j])
        && ws[j].id == (#[trigger] row[k]).id by {
        assert(sorted.contains(sorted[k]));
        let i = choose|i: int| 0 <= i < kp.len() && kp[i] == sorted[k];
        assert(row[k] == kp[i].1);
    }
}
} // verus!
