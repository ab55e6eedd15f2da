//! The structure that every operation on workspaces keeps: identifiers that
//! tell workspaces, tabs and panes apart, and a selection that names what
//! exists.
use vstd::prelude::*;
use crate::text::trimmed;
use crate::workspace::{
    activate_spec, add_tab_spec, add_workspace_spec, close_pane_spec, close_tab_spec,
    close_workspace_spec, current_index, differs, file_pane_spec, find, focus_spec, has_tab,
    inserted_after, is_active_tab, is_current, lemma_find_result, lemma_pane_ids_len,
    lemma_remove_pane_ids, lemma_split_panes, navigate_spec, neighbour, new_tab, open_file_pane_spec,
    pane_ids, panes, path_error, remove_pane, rename_tab_spec, same_root, shows_pane, split_at,
    split_layout, split_spec, tab_after_close, tab_index, total_panes, wf, with_tab, with_workspace,
    Axis, Id, KindView, LayoutView, TabView, WorkspaceView, WorkspacesView, MAX_PANES, MAX_WORKSPACES,
};

verus! {

/// Tab `j` of workspace `i` exists.
pub open spec fn is_tab(s: WorkspacesView, i: int, j: int) -> bool {
    0 <= i < s.items.len() && 0 <= j < s.items[i].tabs.len()
}

/// Tab `j` of workspace `i` shows pane `p`.
pub open spec fn shows(s: WorkspacesView, i: int, j: int, p: Id) -> bool {
    pane_ids(s.items[i].tabs[j].layout).contains(p)
}

/// No two workspaces share an identifier, nor two tabs of one workspace,
/// and none is above the last identifier handed out.
pub open spec fn ids_unique(s: WorkspacesView) -> bool {
    &&& forall|a: int, b: int|
        0 <= a < s.items.len() && 0 <= b < s.items.len() && a != b ==> #[trigger] s.items[a].id
            != #[trigger] s.items[b].id
    &&& forall|i: int, a: int, b: int|
        is_tab(s, i, a) && is_tab(s, i, b) && a != b ==> #[trigger] s.items[i].tabs[a].id
            != #[trigger] s.items[i].tabs[b].id
    &&& forall|i: int| 0 <= i < s.items.len() ==> #[trigger] s.items[i].id <= s.next
    &&& forall|i: int, j: int| is_tab(s, i, j) ==> #[trigger] s.items[i].tabs[j].id <= s.next
}

/// Each pane is shown once: no layout holds a pane twice, no two tabs share
/// a pane, and no pane is above the last identifier handed out.
pub open spec fn panes_unique(s: WorkspacesView) -> bool {
    &&& forall|i: int, j: int| is_tab(s, i, j) ==> pane_ids(#[trigger] s.items[i].tabs[j].layout).no_duplicates()
    &&& forall|i1: int, j1: int, i2: int, j2: int, p: Id|
        is_tab(s, i1, j1) && is_tab(s, i2, j2) && (i1 != i2 || j1 != j2) && #[trigger] shows(s, i1, j1, p)
            ==> !#[trigger] shows(s, i2, j2, p)
    &&& forall|i: int, j: int, p: Id| is_tab(s, i, j) && #[trigger] shows(s, i, j, p) ==> p <= s.next
}

/// The selection names what exists: each tab's active pane is one of its
/// panes, a workspace has an active tab exactly when it has tabs, and one of
/// the workspaces is active exactly when there are any.
pub open spec fn selection_valid(s: WorkspacesView) -> bool {
    &&& forall|i: int, j: int| is_tab(s, i, j) ==> shows(s, i, j, #[trigger] s.items[i].tabs[j].active_pane)
    &&& forall|i: int|
        0 <= i < s.items.len() ==> match #[trigger] s.items[i].active_tab {
            None => s.items[i].tabs.len() == 0,
            Some(t) => has_tab(s.items[i], t),
        }
    &&& match s.active {
        None => s.items.len() == 0,
        Some(a) => exists|i: int| 0 <= i < s.items.len() && #[trigger] s.items[i].id == a,
    }
}

/// The invariant of every state that `Workspaces::default()` and the
/// public operations reach: the limits of `wf` and the structure above.
pub open spec fn sound(s: WorkspacesView) -> bool {
    &&& wf(s)
    &&& structured(s)
}

pub proof fn lemma_find_unique<A>(s: Seq<A>, p: spec_fn(A) -> bool, k: int)
    requires
        0 <= k < s.len(),
        p(s[k]),
        forall|x: int| 0 <= x < s.len() && #[trigger] p(s[x]) ==> x == k,
    ensures
        find(s, p) == Some(k),
{
    lemma_find_result(s, p, 0);
}

/// The parts of the invariant that the operations keep by themselves; the
/// limits in `wf` are kept by the operations' own contracts.
#[verifier::opaque]
pub open spec fn structured(s: WorkspacesView) -> bool {
    &&& ids_unique(s)
    &&& panes_unique(s)
    &&& selection_valid(s)
}

/// `b` has the workspaces and tabs of `a`, with the same identifiers, in
/// the same places.
pub open spec fn same_ids(a: WorkspacesView, b: WorkspacesView) -> bool {
    &&& b.items.len() == a.items.len()
    &&& forall|x: int|
        0 <= x < a.items.len() ==> (#[trigger] b.items[x]).id == a.items[x].id && b.items[x].tabs.len()
            == a.items[x].tabs.len()
    &&& forall|x: int, y: int| is_tab(a, x, y) ==> (#[trigger] b.items[x].tabs[y]).id == a.items[x].tabs[y].id
}

proof fn lemma_same_ids_keep_tabs(a: WorkspacesView, b: WorkspacesView, x: int, t: Id)
    requires
        same_ids(a, b),
        0 <= x < a.items.len(),
        has_tab(a.items[x], t),
    ensures
        has_tab(b.items[x], t),
{
    let y = choose|y: int| 0 <= y < a.items[x].tabs.len() && (#[trigger] a.items[x].tabs[y]).id == t;
    assert(is_tab(a, x, y));
    assert(b.items[x].tabs[y].id == t);
}

/// Identifiers that stay in place stay distinct.
proof fn lemma_same_ids_unique(a: WorkspacesView, b: WorkspacesView)
    requires
        ids_unique(a),
        same_ids(a, b),
        b.next >= a.next,
    ensures
        ids_unique(b),
{
    assert forall|x: int, y: int|
        0 <= x < b.items.len() && 0 <= y < b.items.len() && x != y implies #[trigger] b.items[x].id
        != #[trigger] b.items[y].id by {
        assert(a.items[x].id != a.items[y].id);
    }
    assert forall|i: int, x: int, y: int| is_tab(b, i, x) && is_tab(b, i, y) && x != y implies #[trigger] b.items[
        i].tabs[x].id != #[trigger] b.items[i].tabs[y].id by {
        assert(is_tab(a, i, x) && is_tab(a, i, y));
        assert(a.items[i].tabs[x].id != a.items[i].tabs[y].id);
    }
    assert forall|i: int| 0 <= i < b.items.len() implies #[trigger] b.items[i].id <= b.next by {
        assert(a.items[i].id <= a.next);
    }
    assert forall|i: int, j: int| is_tab(b, i, j) implies #[trigger] b.items[i].tabs[j].id <= b.next by {
        assert(is_tab(a, i, j));
        assert(a.items[i].tabs[j].id <= a.next);
    }
}

/// Replacing tab `j` of workspace `i` by `t`, with `next` as the last
/// identifier handed out, keeps the structure when `t` keeps the tab's
/// identifier, shows its active pane, and shows no pane twice and no pane
/// of another tab.
proof fn lemma_with_tab_structured(s: WorkspacesView, i: int, j: int, t: TabView, next: Id)
    requires
        structured(s),
        is_tab(s, i, j),
        next >= s.next,
        t.id == s.items[i].tabs[j].id,
        pane_ids(t.layout).no_duplicates(),
        pane_ids(t.layout).contains(t.active_pane),
        forall|p: Id| #[trigger] pane_ids(t.layout).contains(p) ==> p <= next && (shows(s, i, j, p) || p > s.next),
    ensures
        structured(with_tab(WorkspacesView { next, ..s }, i, j, t)),
{
    reveal(structured);
    let b = with_tab(WorkspacesView { next, ..s }, i, j, t);
    assert forall|x: int, y: int| is_tab(s, x, y) implies #[trigger] b.items[x].tabs[y] == (if x == i && y == j {
        t
    } else {
        s.items[x].tabs[y]
    }) by {}
    assert(same_ids(s, b));
    lemma_same_ids_unique(s, b);
    assert forall|x: int, y: int, p: Id| is_tab(b, x, y) implies #[trigger] shows(b, x, y, p) == (if x == i && y
        == j {
        pane_ids(t.layout).contains(p)
    } else {
        shows(s, x, y, p)
    }) by {
        assert(is_tab(s, x, y));
    }
    assert forall|x: int, y: int| is_tab(b, x, y) implies pane_ids(
        #[trigger] b.items[x].tabs[y].layout,
    ).no_duplicates() by {
        assert(is_tab(s, x, y));
    }
    assert forall|x1: int, y1: int, x2: int, y2: int, p: Id|
        is_tab(b, x1, y1) && is_tab(b, x2, y2) && (x1 != x2 || y1 != y2) && #[trigger] shows(
            b,
            x1,
            y1,
            p,
        ) implies !#[trigger] shows(b, x2, y2, p) by {
        assert(is_tab(s, x1, y1) && is_tab(s, x2, y2));
        if x1 == i && y1 == j {
            if shows(s, x2, y2, p) {
                assert(p <= s.next);
                assert(shows(s, i, j, p));
            }
        } else if x2 == i && y2 == j {
            if pane_ids(t.layout).contains(p) {
                assert(p <= s.next);
                if !shows(s, i, j, p) {
                    assert(p > s.next);
                }
            }
        }
    }
    assert forall|x: int, y: int, p: Id| is_tab(b, x, y) && #[trigger] shows(b, x, y, p) implies p <= b.next by {
        assert(is_tab(s, x, y));
        if !(x == i && y == j) {
            assert(p <= s.next);
        }
    }
    assert forall|x: int, y: int| is_tab(b, x, y) implies shows(b, x, y, #[trigger] b.items[x].tabs[y].active_pane) by {
        assert(is_tab(s, x, y));
    }
    assert forall|x: int| 0 <= x < b.items.len() implies match #[trigger] b.items[x].active_tab {
        None => b.items[x].tabs.len() == 0,
        Some(id) => has_tab(b.items[x], id),
    } by {
        if let Some(id) = s.items[x].active_tab {
            lemma_same_ids_keep_tabs(s, b, x, id);
        }
    }
    if let Some(a) = s.active {
        let x = choose|x: int| 0 <= x < s.items.len() && #[trigger] s.items[x].id == a;
        assert(b.items[x].id == a);
    }
}

proof fn lemma_retab_same_panes(s: WorkspacesView, i: int, j: int, t: TabView)
    requires
        structured(s),
        is_tab(s, i, j),
        t.id == s.items[i].tabs[j].id,
        t.layout == s.items[i].tabs[j].layout,
        shows(s, i, j, t.active_pane),
    ensures
        structured(with_tab(s, i, j, t)),
{
    reveal(structured);
    assert forall|p: Id| #[trigger] pane_ids(t.layout).contains(p) implies p <= s.next && (shows(s, i, j, p)
        || p > s.next) by {
        assert(shows(s, i, j, p));
    }
    lemma_with_tab_structured(s, i, j, t, s.next);
    assert(WorkspacesView { next: s.next, ..s } =~= s);
}

/// Focusing a pane keeps the structural invariant: identifiers stay distinct and
/// below the last one handed out, each pane is shown once, and the
/// selection names what exists.
pub proof fn law_focus_keeps_structure(s: WorkspacesView, pane: Id)
    requires
        structured(s),
    ensures
        structured(focus_spec(s, pane)),
{
    reveal(structured);
    match current_index(s) {
        None => {},
        Some(i) => {
            lemma_find_result(s.items, is_current(s.active), 0);
            match find(s.items[i].tabs, shows_pane(s.items[i].active_tab, pane)) {
                None => {},
                Some(j) => {
                    lemma_find_result(s.items[i].tabs, shows_pane(s.items[i].active_tab, pane), 0);
                    lemma_retab_same_panes(s, i, j, TabView { active_pane: pane, ..s.items[i].tabs[j] });
                },
            }
        },
    }
}

/// Renaming a tab keeps the structural invariant: identifiers stay distinct and
/// below the last one handed out, each pane is shown once, and the
/// selection names what exists.
pub proof fn law_rename_keeps_structure(s: WorkspacesView, id: Id, title: Seq<char>)
    requires
        structured(s),
    ensures
        structured(rename_tab_spec(s, id, title).0),
{
    reveal(structured);
    let name = trimmed(title);
    if name.len() != 0 && name.len() <= 80 {
        match current_index(s) {
            None => {},
            Some(i) => {
                lemma_find_result(s.items, is_current(s.active), 0);
                match find(s.items[i].tabs, |t: TabView| t.id == id) {
                    None => {},
                    Some(j) => {
                        lemma_find_result(s.items[i].tabs, |t: TabView| t.id == id, 0);
                        assert(is_tab(s, i, j));
                        lemma_retab_same_panes(s, i, j, TabView { title: name, ..s.items[i].tabs[j] });
                    },
                }
            },
        }
    }
}

/// Activating a workspace or tab keeps the structural invariant: identifiers stay distinct and
/// below the last one handed out, each pane is shown once, and the
/// selection names what exists.
pub proof fn law_activate_keeps_structure(s: WorkspacesView, workspace: Id, tab: Option<Id>)
    requires
        structured(s),
    ensures
        structured(activate_spec(s, workspace, tab)),
{
    reveal(structured);
    let by_id = |w: WorkspaceView| w.id == workspace;
    match find(s.items, by_id) {
        None => {},
        Some(i) => {
            lemma_find_result(s.items, by_id, 0);
            let b = activate_spec(s, workspace, tab);
            assert forall|x: int| 0 <= x < s.items.len() implies (#[trigger] b.items[x]).tabs == s.items[x].tabs
                && b.items[x].id == s.items[x].id && (x != i ==> b.items[x] == s.items[x]) by {}
            assert(same_ids(s, b));
            lemma_same_ids_unique(s, b);
            assert forall|x: int, y: int, p: Id| is_tab(b, x, y) implies #[trigger] shows(b, x, y, p) == shows(
                s,
                x,
                y,
                p,
            ) by {}
            assert forall|x: int, y: int| is_tab(b, x, y) implies pane_ids(
                #[trigger] b.items[x].tabs[y].layout,
            ).no_duplicates() by {
                assert(is_tab(s, x, y));
            }
            assert forall|x1: int, y1: int, x2: int, y2: int, p: Id|
                is_tab(b, x1, y1) && is_tab(b, x2, y2) && (x1 != x2 || y1 != y2) && #[trigger] shows(
                    b,
                    x1,
                    y1,
                    p,
                ) implies !#[trigger] shows(b, x2, y2, p) by {
                assert(is_tab(s, x1, y1) && is_tab(s, x2, y2));
                assert(shows(s, x1, y1, p));
            }
            assert forall|x: int, y: int, p: Id| is_tab(b, x, y) && #[trigger] shows(b, x, y, p) implies p
                <= b.next by {
                assert(is_tab(s, x, y));
                assert(shows(s, x, y, p));
            }
            assert forall|x: int, y: int| is_tab(b, x, y) implies shows(
                b,
                x,
                y,
                #[trigger] b.items[x].tabs[y].active_pane,
            ) by {
                assert(is_tab(s, x, y));
            }
            assert forall|x: int| 0 <= x < b.items.len() implies match #[trigger] b.items[x].active_tab {
                None => b.items[x].tabs.len() == 0,
                Some(id) => has_tab(b.items[x], id),
            } by {
                if let Some(id) = s.items[x].active_tab {
                    lemma_same_ids_keep_tabs(s, b, x, id);
                }
            }
            assert(b.items[i].id == workspace);
        },
    }
}

/// Navigating keeps the structural invariant: identifiers stay distinct and
/// below the last one handed out, each pane is shown once, and the
/// selection names what exists.
pub proof fn law_navigate_keeps_structure(s: WorkspacesView, direction: nat)
    requires
        structured(s),
    ensures
        structured(navigate_spec(s, direction)),
{
    reveal(structured);
    if direction == 0 || direction == 1 {
        match current_index(s) {
            None => {},
            Some(i) => {
                let w = s.items[i];
                match find(w.tabs, is_active_tab(w.active_tab)) {
                    None => {},
                    Some(j) => {
                        law_activate_keeps_structure(
                            s,
                            w.id,
                            Some(w.tabs[neighbour(direction, j, w.tabs.len() as int)].id),
                        );
                    },
                }
            },
        }
    } else if direction == 2 || direction == 3 {
        match tab_index(s) {
            None => {},
            Some((i, j)) => {
                let t = s.items[i].tabs[j];
                let ids = pane_ids(t.layout);
                match find(ids, |id: Id| id == t.active_pane) {
                    None => {},
                    Some(k) => law_focus_keeps_structure(s, ids[neighbour(direction, k, ids.len() as int)]),
                }
            },
        }
    } else if direction == 4 || direction == 5 {
        match current_index(s) {
            None => {},
            Some(i) => law_activate_keeps_structure(s, s.items[neighbour(direction, i, s.items.len() as int)].id, None),
        }
    }
}

/// Splitting adds the new pane and keeps every other one.
pub proof fn lemma_split_ids(l: LayoutView, target: Id, new: Id, kind: KindView, axis: Axis, depth: nat)
    requires
        pane_ids(l).no_duplicates(),
        !pane_ids(l).contains(new),
    ensures
        split_layout(l, target, new, kind, axis, depth) matches Some(r) ==> {
            &&& pane_ids(r).no_duplicates()
            &&& pane_ids(r).contains(new)
            &&& forall|p: Id| #[trigger] pane_ids(r).contains(p) ==> pane_ids(l).contains(p) || p == new
        },
{
    lemma_split_panes(l, target, new, kind, axis, depth);
    if let Some(r) = split_layout(l, target, new, kind, axis, depth) {
        let i = choose|i: int| inserted_after(panes(l), panes(r), i, target, new, kind);
        lemma_pane_ids_len(l);
        lemma_pane_ids_len(r);
        let a = pane_ids(l);
        let b = pane_ids(r);
        assert(b.len() == a.len() + 1);
        assert forall|k: int| 0 <= k < b.len() implies #[trigger] b[k] == (if k <= i {
            a[k]
        } else if k == i + 1 {
            new
        } else {
            a[k - 1]
        }) by {
            assert(b[k] == panes(r)[k].0);
            if k <= i {
                assert(panes(r)[k] == panes(l)[k]);
            } else if k > i + 1 {
                assert(panes(r)[k] == panes(l)[k - 1]);
            }
        }
        assert forall|x: int, y: int| 0 <= x < b.len() && 0 <= y < b.len() && x != y implies b[x] != b[y] by {
            if x == i + 1 {
                assert(a.contains(b[y]) || y == i + 1);
            } else if y == i + 1 {
                assert(a.contains(b[x]));
            }
        }
        assert(b[i + 1] == new);
        assert forall|p: Id| #[trigger] b.contains(p) implies a.contains(p) || p == new by {
            let k = choose|k: int| 0 <= k < b.len() && b[k] == p;
            if k <= i {
                assert(a[k] == p);
            } else if k > i + 1 {
                assert(a[k - 1] == p);
            }
        }
    }
}

/// Handing out identifiers without using them keeps the structure.
proof fn lemma_counted_structured(s: WorkspacesView, next: Id)
    requires
        structured(s),
        next >= s.next,
    ensures
        structured(WorkspacesView { next, ..s }),
{
    reveal(structured);
    let b = WorkspacesView { next, ..s };
    assert(same_ids(s, b));
    lemma_same_ids_unique(s, b);
    assert forall|x: int, y: int| is_tab(b, x, y) implies pane_ids(
        #[trigger] b.items[x].tabs[y].layout,
    ).no_duplicates() by {
        assert(is_tab(s, x, y));
    }
    assert forall|x: int, y: int, p: Id| is_tab(b, x, y) && #[trigger] shows(b, x, y, p) implies p <= b.next by {
        assert(shows(s, x, y, p));
    }
    assert forall|x1: int, y1: int, x2: int, y2: int, p: Id|
        is_tab(b, x1, y1) && is_tab(b, x2, y2) && (x1 != x2 || y1 != y2) && #[trigger] shows(
            b,
            x1,
            y1,
            p,
        ) implies !#[trigger] shows(b, x2, y2, p) by {
        assert(is_tab(s, x1, y1) && is_tab(s, x2, y2));
        assert(shows(s, x1, y1, p));
        assert(!shows(s, x2, y2, p));
    }
}

pub proof fn lemma_split_at_structured(s: WorkspacesView, i: int, j: int, kind: KindView, axis: Axis)
    requires
        structured(s),
        is_tab(s, i, j),
        s.next < u64::MAX,
    ensures
        structured(split_at(s, i, j, kind, axis).0),
{
    reveal(structured);
    let new = (s.next + 1) as u64;
    let t = s.items[i].tabs[j];
    assert(pane_ids(t.layout).no_duplicates());
    if pane_ids(t.layout).contains(new) {
        assert(shows(s, i, j, new));
    }
    lemma_split_ids(t.layout, t.active_pane, new, kind, axis, 0);
    match split_layout(t.layout, t.active_pane, new, kind, axis, 0) {
        None => lemma_counted_structured(s, new),
        Some(l) => {
            let t1 = TabView { layout: l, active_pane: new, ..t };
            assert forall|p: Id| #[trigger] pane_ids(t1.layout).contains(p) implies p <= new && (shows(s, i, j, p)
                || p > s.next) by {
                if p != new {
                    assert(shows(s, i, j, p));
                }
            }
            lemma_with_tab_structured(s, i, j, t1, new);
        },
    }
}

/// Splitting the active pane keeps the structural invariant: identifiers stay distinct and
/// below the last one handed out, each pane is shown once, and the
/// selection names what exists.
pub proof fn law_split_keeps_structure(s: WorkspacesView, axis: Axis)
    requires
        structured(s),
        s.next < u64::MAX,
    ensures
        structured(split_spec(s, axis).0),
{
    reveal(structured);
    if total_panes(s.items) < MAX_PANES {
        if let Some((i, j)) = tab_index(s) {
            lemma_find_result(s.items, is_current(s.active), 0);
            lemma_find_result(s.items[i].tabs, is_active_tab(s.items[i].active_tab), 0);
            lemma_split_at_structured(s, i, j, KindView::Terminal, axis);
        }
    }
}

/// Opening a file pane keeps the structural invariant: identifiers stay distinct and
/// below the last one handed out, each pane is shown once, and the
/// selection names what exists.
pub proof fn law_open_file_pane_keeps_structure(s: WorkspacesView, path: &str)
    requires
        structured(s),
        s.next < u64::MAX,
    ensures
        structured(open_file_pane_spec(s, path).0),
{
    reveal(structured);
    if path_error(path@) is None {
        match file_pane_spec(s, path@) {
            Some(existing) => law_focus_keeps_structure(s, existing),
            None => if total_panes(s.items) < MAX_PANES {
                if let Some((i, j)) = tab_index(s) {
                    lemma_find_result(s.items, is_current(s.active), 0);
                    lemma_find_result(s.items[i].tabs, is_active_tab(s.items[i].active_tab), 0);
                    lemma_split_at_structured(s, i, j, KindView::File(path@), Axis::Horizontal);
                }
            },
        }
    }
}

/// Adding tab `t`, fresh and made active, to workspace `i` keeps the
/// structure when its identifiers are above the last one handed out before.
proof fn lemma_push_tab_structured(s: WorkspacesView, i: int, w: WorkspaceView, t: TabView, next: Id)
    requires
        structured(s),
        0 <= i < s.items.len(),
        w.id == s.items[i].id,
        w.tabs == s.items[i].tabs.push(t),
        w.active_tab == Some(t.id),
        s.next < t.id <= next,
        pane_ids(t.layout).no_duplicates(),
        pane_ids(t.layout).contains(t.active_pane),
        forall|p: Id| #[trigger] pane_ids(t.layout).contains(p) ==> s.next < p <= next,
    ensures
        structured(with_workspace(WorkspacesView { next, ..s }, i, w)),
{
    reveal(structured);
    let b = with_workspace(WorkspacesView { next, ..s }, i, w);
    let n = s.items[i].tabs.len() as int;
    assert forall|x: int, y: int| is_tab(b, x, y) && !(x == i && y == n) implies is_tab(s, x, y) && #[trigger] b.items[
        x].tabs[y] == s.items[x].tabs[y] by {}
    assert(b.items[i].tabs[n] == t);
    assert forall|x: int| 0 <= x < b.items.len() implies (#[trigger] b.items[x]).id == s.items[x].id by {}
    assert forall|x: int, y: int| is_tab(b, x, y) implies #[trigger] b.items[x].tabs[y].id <= b.next by {
        if !(x == i && y == n) {
            assert(s.items[x].tabs[y].id <= s.next);
        }
    }
    assert forall|x: int, a: int, c: int| is_tab(b, x, a) && is_tab(b, x, c) && a != c implies #[trigger] b.items[
        x].tabs[a].id != #[trigger] b.items[x].tabs[c].id by {
        if x == i && a == n {
            assert(s.items[x].tabs[c].id <= s.next);
        } else if x == i && c == n {
            assert(s.items[x].tabs[a].id <= s.next);
        } else {
            assert(s.items[x].tabs[a].id != s.items[x].tabs[c].id);
        }
    }
    assert forall|x: int, a: int| 0 <= x < b.items.len() && 0 <= a < b.items.len() && x != a implies #[trigger] b.items[x].id
        != #[trigger] b.items[a].id by {
        assert(s.items[x].id != s.items[a].id);
    }
    assert forall|x: int| 0 <= x < b.items.len() implies #[trigger] b.items[x].id <= b.next by {
        assert(s.items[x].id <= s.next);
    }
    assert(ids_unique(b));
    assert forall|x: int, y: int| is_tab(b, x, y) implies pane_ids(
        #[trigger] b.items[x].tabs[y].layout,
    ).no_duplicates() by {}
    assert forall|x1: int, y1: int, x2: int, y2: int, p: Id|
        is_tab(b, x1, y1) && is_tab(b, x2, y2) && (x1 != x2 || y1 != y2) && #[trigger] shows(
            b,
            x1,
            y1,
            p,
        ) implies !#[trigger] shows(b, x2, y2, p) by {
        if x1 == i && y1 == n {
            if shows(s, x2, y2, p) {
                assert(p <= s.next);
            }
        } else if x2 == i && y2 == n {
            assert(shows(s, x1, y1, p));
        } else {
            assert(shows(s, x1, y1, p));
            assert(!shows(s, x2, y2, p));
        }
    }
    assert forall|x: int, y: int, p: Id| is_tab(b, x, y) && #[trigger] shows(b, x, y, p) implies p <= b.next by {
        if !(x == i && y == n) {
            assert(shows(s, x, y, p));
        }
    }
    assert forall|x: int, y: int| is_tab(b, x, y) implies shows(
        b,
        x,
        y,
        #[trigger] b.items[x].tabs[y].active_pane,
    ) by {}
    assert forall|x: int| 0 <= x < b.items.len() implies match #[trigger] b.items[x].active_tab {
        None => b.items[x].tabs.len() == 0,
        Some(id) => has_tab(b.items[x], id),
    } by {
        if x == i {
            assert(b.items[x].tabs[n].id == t.id);
        } else {
            assert(b.items[x] == s.items[x]);
        }
    }
    if let Some(a) = s.active {
        let x = choose|x: int| 0 <= x < s.items.len() && #[trigger] s.items[x].id == a;
        assert(b.items[x].id == a);
    }
}

/// Opening a tab keeps the structural invariant: identifiers stay distinct and
/// below the last one handed out, each pane is shown once, and the
/// selection names what exists.
pub proof fn law_add_tab_keeps_structure(s: WorkspacesView)
    requires
        structured(s),
        s.next + 2 <= u64::MAX,
    ensures
        structured(add_tab_spec(s).0),
{
    reveal(structured);
    match current_index(s) {
        None => {},
        Some(i) => {
            lemma_find_result(s.items, is_current(s.active), 0);
            if total_panes(s.items) < MAX_PANES {
                let id = (s.next + 1) as u64;
                let pane = (s.next + 2) as u64;
                let w = new_tab(s.items[i], id, pane);
                let t = w.tabs.last();
                assert(pane_ids(t.layout) == seq![pane]);
                assert forall|p: Id| #[trigger] pane_ids(t.layout).contains(p) implies s.next < p <= pane by {
                    assert(pane_ids(t.layout)[0] == pane);
                }
                assert(pane_ids(t.layout)[0] == pane);
                assert(w.tabs =~= s.items[i].tabs.push(t));
                lemma_push_tab_structured(s, i, w, t, pane);
                assert(add_tab_spec(s).0 =~= with_workspace(WorkspacesView { next: pane, ..s }, i, w));
            }
        },
    }
}

/// The place in `s` of tab `y` of workspace `x` once tab `j` of workspace
/// `i` is gone.
pub open spec fn before_removal(i: int, j: int, x: int, y: int) -> int {
    if x == i && y >= j {
        y + 1
    } else {
        y
    }
}

/// Removing tab `j` of workspace `i` keeps the structure when the
/// workspace's new active tab is valid.
proof fn lemma_remove_tab_structured(s: WorkspacesView, i: int, j: int, w: WorkspaceView)
    requires
        structured(s),
        is_tab(s, i, j),
        w.id == s.items[i].id,
        w.tabs == s.items[i].tabs.remove(j),
        match w.active_tab {
            None => w.tabs.len() == 0,
            Some(t) => has_tab(w, t),
        },
    ensures
        structured(with_workspace(s, i, w)),
{
    reveal(structured);
    let b = with_workspace(s, i, w);
    assert forall|x: int, y: int| is_tab(b, x, y) implies is_tab(s, x, before_removal(i, j, x, y)) && #[trigger] b.items[
        x].tabs[y] == s.items[x].tabs[before_removal(i, j, x, y)] by {}
    assert forall|x: int| 0 <= x < b.items.len() implies (#[trigger] b.items[x]).id == s.items[x].id && (x != i
        ==> b.items[x] == s.items[x]) by {}
    assert forall|x: int, a: int| 0 <= x < b.items.len() && 0 <= a < b.items.len() && x != a implies #[trigger] b.items[x].id
        != #[trigger] b.items[a].id by {
        assert(s.items[x].id != s.items[a].id);
    }
    assert forall|x: int| 0 <= x < b.items.len() implies #[trigger] b.items[x].id <= b.next by {
        assert(s.items[x].id <= s.next);
    }
    assert forall|x: int, a: int, c: int| is_tab(b, x, a) && is_tab(b, x, c) && a != c implies #[trigger] b.items[
        x].tabs[a].id != #[trigger] b.items[x].tabs[c].id by {
        let a0 = before_removal(i, j, x, a);
        let c0 = before_removal(i, j, x, c);
        assert(s.items[x].tabs[a0].id != s.items[x].tabs[c0].id);
    }
    assert forall|x: int, y: int| is_tab(b, x, y) implies #[trigger] b.items[x].tabs[y].id <= b.next by {
        assert(s.items[x].tabs[before_removal(i, j, x, y)].id <= s.next);
    }
    assert(ids_unique(b));
    assert forall|x: int, y: int| is_tab(b, x, y) implies pane_ids(
        #[trigger] b.items[x].tabs[y].layout,
    ).no_duplicates() by {
        assert(is_tab(s, x, before_removal(i, j, x, y)));
    }
    assert forall|x1: int, y1: int, x2: int, y2: int, p: Id|
        is_tab(b, x1, y1) && is_tab(b, x2, y2) && (x1 != x2 || y1 != y2) && #[trigger] shows(
            b,
            x1,
            y1,
            p,
        ) implies !#[trigger] shows(b, x2, y2, p) by {
        let a = before_removal(i, j, x1, y1);
        let c = before_removal(i, j, x2, y2);
        assert(shows(s, x1, a, p));
        assert(!shows(s, x2, c, p));
    }
    assert forall|x: int, y: int, p: Id| is_tab(b, x, y) && #[trigger] shows(b, x, y, p) implies p <= b.next by {
        assert(shows(s, x, before_removal(i, j, x, y), p));
    }
    assert forall|x: int, y: int| is_tab(b, x, y) implies shows(
        b,
        x,
        y,
        #[trigger] b.items[x].tabs[y].active_pane,
    ) by {
        assert(is_tab(s, x, before_removal(i, j, x, y)));
    }
    assert forall|x: int| 0 <= x < b.items.len() implies match #[trigger] b.items[x].active_tab {
        None => b.items[x].tabs.len() == 0,
        Some(id) => has_tab(b.items[x], id),
    } by {
        if x != i {
            assert(b.items[x] == s.items[x]);
        }
    }
    if let Some(a) = s.active {
        let x = choose|x: int| 0 <= x < s.items.len() && #[trigger] s.items[x].id == a;
        assert(b.items[x].id == a);
    }
}

proof fn lemma_tab_after_close_valid(w: WorkspaceView, tabs: Seq<TabView>, j: int)
    requires
        0 <= j,
    ensures
        ({
            let v = WorkspaceView { tabs, active_tab: tab_after_close(tabs, j), ..w };
            match v.active_tab {
                None => v.tabs.len() == 0,
                Some(t) => has_tab(v, t),
            }
        }),
{
    if tabs.len() > 0 {
        let k = if j < tabs.len() { j } else { tabs.len() - 1 };
        let v = WorkspaceView { tabs, active_tab: tab_after_close(tabs, j), ..w };
        assert(v.tabs[k].id == tabs[k].id);
    }
}

/// Closing a tab keeps the structural invariant: identifiers stay distinct and
/// below the last one handed out, each pane is shown once, and the
/// selection names what exists.
pub proof fn law_close_tab_keeps_structure(s: WorkspacesView, id: Id)
    requires
        structured(s),
    ensures
        structured(close_tab_spec(s, id).0),
{
    reveal(structured);
    match current_index(s) {
        None => {},
        Some(i) => {
            lemma_find_result(s.items, is_current(s.active), 0);
            let w = s.items[i];
            let by_id = |t: TabView| t.id == id;
            match find(w.tabs, by_id) {
                None => {},
                Some(j) => {
                    lemma_find_result(w.tabs, by_id, 0);
                    let tabs = w.tabs.remove(j);
                    let active_tab = if w.active_tab == Some(id) {
                        tab_after_close(tabs, j)
                    } else {
                        w.active_tab
                    };
                    let v = WorkspaceView { tabs, active_tab, ..w };
                    if w.active_tab == Some(id) {
                        lemma_tab_after_close_valid(w, tabs, j);
                    } else {
                        assert(w.active_tab is Some);
                        let a = w.active_tab->0;
                        let y = choose|y: int| 0 <= y < w.tabs.len() && (#[trigger] w.tabs[y]).id == a;
                        let k = if y < j { y } else { y - 1 };
                        assert(v.tabs[k].id == a);
                    }
                    lemma_remove_tab_structured(s, i, j, v);
                },
            }
        },
    }
}

pub proof fn lemma_filter_no_duplicates<A>(s: Seq<A>, p: spec_fn(A) -> bool)
    requires
        s.no_duplicates(),
    ensures
        s.filter(p).no_duplicates(),
    decreases s.len(),
{
    reveal(Seq::filter);
    if s.len() > 0 {
        let rest = s.drop_last();
        assert(rest.no_duplicates());
        lemma_filter_no_duplicates(rest, p);
        if p(s.last()) {
            let f = rest.filter(p);
            if f.contains(s.last()) {
                rest.lemma_filter_contains_rev(p, s.last());
                let k = choose|k: int| 0 <= k < rest.len() && rest[k] == s.last();
                assert(s[k] == s[s.len() - 1]);
            }
            assert forall|x: int, y: int| 0 <= x < f.len() + 1 && 0 <= y < f.len() + 1 && x != y implies f.push(
                s.last(),
            )[x] != f.push(s.last())[y] by {
                if x == f.len() {
                    assert(f[y] != s.last());
                } else if y == f.len() {
                    assert(f[x] != s.last());
                }
            }
        }
    }
}

/// Closing a pane keeps the structural invariant: identifiers stay distinct and
/// below the last one handed out, each pane is shown once, and the
/// selection names what exists.
pub proof fn law_close_pane_keeps_structure(s: WorkspacesView, pane: Id)
    requires
        structured(s),
    ensures
        structured(close_pane_spec(s, pane).0),
{
    reveal(structured);
    match current_index(s) {
        None => {},
        Some(i) => {
            lemma_find_result(s.items, is_current(s.active), 0);
            let w = s.items[i];
            match find(w.tabs, shows_pane(w.active_tab, pane)) {
                None => {},
                Some(j) => {
                    lemma_find_result(w.tabs, shows_pane(w.active_tab, pane), 0);
                    let t = w.tabs[j];
                    assert(is_tab(s, i, j));
                    lemma_remove_pane_ids(t.layout, pane);
                    match remove_pane(t.layout, pane) {
                        Some(l) => {
                            let old_ids = pane_ids(t.layout);
                            lemma_filter_no_duplicates(old_ids, differs(pane));
                            let active = if t.active_pane == pane {
                                pane_ids(l)[0]
                            } else {
                                t.active_pane
                            };
                            if t.active_pane != pane {
                                assert(shows(s, i, j, t.active_pane));
                                let k = choose|k: int| 0 <= k < old_ids.len() && old_ids[k] == t.active_pane;
                                old_ids.lemma_filter_contains(differs(pane), k);
                            }
                            let t1 = TabView { layout: l, active_pane: active, ..t };
                            assert forall|p: Id| #[trigger] pane_ids(t1.layout).contains(p) implies p <= s.next && (
                            shows(s, i, j, p) || p > s.next) by {
                                old_ids.lemma_filter_contains_rev(differs(pane), p);
                                assert(shows(s, i, j, p));
                            }
                            lemma_with_tab_structured(s, i, j, t1, s.next);
                            assert(WorkspacesView { next: s.next, ..s } =~= s);
                        },
                        None => {
                            let tabs = w.tabs.remove(j);
                            lemma_tab_after_close_valid(w, tabs, j);
                            lemma_remove_tab_structured(
                                s,
                                i,
                                j,
                                WorkspaceView { tabs, active_tab: tab_after_close(tabs, j), ..w },
                            );
                        },
                    }
                },
            }
        },
    }
}

/// Closing a workspace keeps the structural invariant: identifiers stay distinct and
/// below the last one handed out, each pane is shown once, and the
/// selection names what exists.
pub proof fn law_close_workspace_keeps_structure(s: WorkspacesView, id: Id)
    requires
        structured(s),
    ensures
        structured(close_workspace_spec(s, id).0),
{
    reveal(structured);
    let by_id = |w: WorkspaceView| w.id == id;
    match find(s.items, by_id) {
        None => {},
        Some(i) => {
            lemma_find_result(s.items, by_id, 0);
            let b = close_workspace_spec(s, id).0;
            let items = s.items.remove(i);
            assert(b.items == items);
            assert forall|x: int| 0 <= x < b.items.len() implies #[trigger] b.items[x] == s.items[if x < i {
                x
            } else {
                x + 1
            }] by {}
            assert forall|x: int, y: int| is_tab(b, x, y) implies is_tab(s, if x < i { x } else { x + 1 }, y) by {}
            assert forall|x: int, a: int| 0 <= x < b.items.len() && 0 <= a < b.items.len() && x != a implies #[trigger] b.items[x].id
                != #[trigger] b.items[a].id by {
                let x0 = if x < i { x } else { x + 1 };
                let a0 = if a < i { a } else { a + 1 };
                assert(s.items[x0].id != s.items[a0].id);
            }
            assert forall|x: int| 0 <= x < b.items.len() implies #[trigger] b.items[x].id <= b.next by {
                let x0 = if x < i { x } else { x + 1 };
                assert(s.items[x0].id <= s.next);
            }
            assert forall|x: int, a: int, c: int| is_tab(b, x, a) && is_tab(b, x, c) && a != c implies #[trigger] b.items[
                x].tabs[a].id != #[trigger] b.items[x].tabs[c].id by {
                let x0 = if x < i { x } else { x + 1 };
                assert(s.items[x0].tabs[a].id != s.items[x0].tabs[c].id);
            }
            assert forall|x: int, y: int| is_tab(b, x, y) implies #[trigger] b.items[x].tabs[y].id <= b.next by {
                let x0 = if x < i { x } else { x + 1 };
                assert(s.items[x0].tabs[y].id <= s.next);
            }
            assert(ids_unique(b));
            assert forall|x: int, y: int| is_tab(b, x, y) implies pane_ids(
                #[trigger] b.items[x].tabs[y].layout,
            ).no_duplicates() by {
                let x0 = if x < i { x } else { x + 1 };
                assert(is_tab(s, x0, y));
            }
            assert forall|x1: int, y1: int, x2: int, y2: int, p: Id|
                is_tab(b, x1, y1) && is_tab(b, x2, y2) && (x1 != x2 || y1 != y2) && #[trigger] shows(
                    b,
                    x1,
                    y1,
                    p,
                ) implies !#[trigger] shows(b, x2, y2, p) by {
                let a = if x1 < i { x1 } else { x1 + 1 };
                let c = if x2 < i { x2 } else { x2 + 1 };
                assert(shows(s, a, y1, p));
                assert(!shows(s, c, y2, p));
            }
            assert forall|x: int, y: int, p: Id| is_tab(b, x, y) && #[trigger] shows(b, x, y, p) implies p
                <= b.next by {
                let x0 = if x < i { x } else { x + 1 };
                assert(shows(s, x0, y, p));
            }
            assert forall|x: int, y: int| is_tab(b, x, y) implies shows(
                b,
                x,
                y,
                #[trigger] b.items[x].tabs[y].active_pane,
            ) by {
                let x0 = if x < i { x } else { x + 1 };
                assert(is_tab(s, x0, y));
            }
            assert forall|x: int| 0 <= x < b.items.len() implies match #[trigger] b.items[x].active_tab {
                None => b.items[x].tabs.len() == 0,
                Some(t) => has_tab(b.items[x], t),
            } by {
                let x0 = if x < i { x } else { x + 1 };
                assert(b.items[x] == s.items[x0]);
            }
            if s.active == Some(id) {
                if items.len() > 0 {
                    let k = if i < items.len() { i } else { items.len() - 1 };
                    assert(b.items[k].id == items[k].id);
                }
            } else {
                let a = s.active->0;
                let x = choose|x: int| 0 <= x < s.items.len() && #[trigger] s.items[x].id == a;
                let k = if x < i { x } else { x - 1 };
                assert(b.items[k].id == a);
            }
        },
    }
}

/// Adding workspace `w`, fresh, without tabs and made active, keeps the
/// structure.
proof fn lemma_push_workspace_structured(s: WorkspacesView, w: WorkspaceView, next: Id)
    requires
        structured(s),
        s.next < w.id <= next,
        w.tabs.len() == 0,
        w.active_tab is None,
    ensures
        structured(WorkspacesView { items: s.items.push(w), active: Some(w.id), next }),
{
    reveal(structured);
    let b = WorkspacesView { items: s.items.push(w), active: Some(w.id), next };
    let n = s.items.len() as int;
    assert forall|x: int| 0 <= x < n implies #[trigger] b.items[x] == s.items[x] by {}
    assert(b.items[n] == w);
    assert forall|x: int, y: int| is_tab(b, x, y) implies is_tab(s, x, y) by {}
    assert forall|x: int, a: int| 0 <= x < b.items.len() && 0 <= a < b.items.len() && x != a implies #[trigger] b.items[x].id
        != #[trigger] b.items[a].id by {
        if x == n {
            assert(s.items[a].id <= s.next);
        } else if a == n {
            assert(s.items[x].id <= s.next);
        } else {
            assert(s.items[x].id != s.items[a].id);
        }
    }
    assert forall|x: int| 0 <= x < b.items.len() implies #[trigger] b.items[x].id <= b.next by {
        if x < n {
            assert(s.items[x].id <= s.next);
        }
    }
    assert forall|x: int, a: int, c: int| is_tab(b, x, a) && is_tab(b, x, c) && a != c implies #[trigger] b.items[
        x].tabs[a].id != #[trigger] b.items[x].tabs[c].id by {
        assert(s.items[x].tabs[a].id != s.items[x].tabs[c].id);
    }
    assert forall|x: int, y: int| is_tab(b, x, y) implies #[trigger] b.items[x].tabs[y].id <= b.next by {
        assert(s.items[x].tabs[y].id <= s.next);
    }
    assert(ids_unique(b));
    assert forall|x: int, y: int| is_tab(b, x, y) implies pane_ids(
        #[trigger] b.items[x].tabs[y].layout,
    ).no_duplicates() by {
        assert(is_tab(s, x, y));
    }
    assert forall|x1: int, y1: int, x2: int, y2: int, p: Id|
        is_tab(b, x1, y1) && is_tab(b, x2, y2) && (x1 != x2 || y1 != y2) && #[trigger] shows(
            b,
            x1,
            y1,
            p,
        ) implies !#[trigger] shows(b, x2, y2, p) by {
        assert(shows(s, x1, y1, p));
        assert(!shows(s, x2, y2, p));
    }
    assert forall|x: int, y: int, p: Id| is_tab(b, x, y) && #[trigger] shows(b, x, y, p) implies p <= b.next by {
        assert(shows(s, x, y, p));
    }
    assert forall|x: int, y: int| is_tab(b, x, y) implies shows(
        b,
        x,
        y,
        #[trigger] b.items[x].tabs[y].active_pane,
    ) by {
        assert(is_tab(s, x, y));
    }
    assert forall|x: int| 0 <= x < b.items.len() implies match #[trigger] b.items[x].active_tab {
        None => b.items[x].tabs.len() == 0,
        Some(t) => has_tab(b.items[x], t),
    } by {
        if x < n {
            assert(b.items[x] == s.items[x]);
        }
    }
    assert(b.items[n].id == w.id);
}

/// Opening a workspace keeps the structural invariant: identifiers stay distinct and
/// below the last one handed out, each pane is shown once, and the
/// selection names what exists.
pub proof fn law_add_workspace_keeps_structure(s: WorkspacesView, root: Seq<char>)
    requires
        structured(s),
        s.next + 3 <= u64::MAX,
    ensures
        structured(add_workspace_spec(s, root).0),
{
    reveal(structured);
    match find(s.items, same_root(root)) {
        Some(k) => {
            lemma_find_result(s.items, same_root(root), 0);
            let b = WorkspacesView { active: Some(s.items[k].id), ..s };
            assert(b.items[k].id == s.items[k].id);
            assert forall|x: int, y: int, p: Id| is_tab(b, x, y) && #[trigger] shows(b, x, y, p) implies p
                <= b.next by {
                assert(shows(s, x, y, p));
            }
            assert forall|x1: int, y1: int, x2: int, y2: int, p: Id|
                is_tab(b, x1, y1) && is_tab(b, x2, y2) && (x1 != x2 || y1 != y2) && #[trigger] shows(
                    b,
                    x1,
                    y1,
                    p,
                ) implies !#[trigger] shows(b, x2, y2, p) by {
                assert(shows(s, x1, y1, p));
                assert(!shows(s, x2, y2, p));
            }
        },
        None => if s.items.len() < MAX_WORKSPACES && total_panes(s.items) < MAX_PANES {
            let id = (s.next + 1) as u64;
            let w = WorkspaceView { id, root, tabs: Seq::empty(), active_tab: None, next_tab: 0 };
            lemma_push_workspace_structured(s, w, id);
            law_add_tab_keeps_structure(WorkspacesView { items: s.items.push(w), active: Some(id), next: id });
        },
    }
}

proof fn lemma_back_then_forward(j: int, n: int)
    requires
        0 <= j < n,
    ensures
        0 <= neighbour(0, j, n) < n,
        neighbour(1, neighbour(0, j, n), n) == j,
{
    let b = neighbour(0, j, n);
    if j >= 1 {
        vstd::arithmetic::div_mod::lemma_mod_add_multiples_vanish(j - 1, n);
        vstd::arithmetic::div_mod::lemma_small_mod((j - 1) as nat, n as nat);
        vstd::arithmetic::div_mod::lemma_small_mod(j as nat, n as nat);
    } else {
        vstd::arithmetic::div_mod::lemma_small_mod((n - 1) as nat, n as nat);
        vstd::arithmetic::div_mod::lemma_mod_self_0(n);
    }
}

proof fn lemma_tabs_round_trip(s: WorkspacesView)
    requires
        sound(s),
    ensures
        navigate_spec(navigate_spec(s, 0), 1) == s,
{
    reveal(structured);
    match current_index(s) {
        None => {},
        Some(i) => {
            lemma_find_result(s.items, is_current(s.active), 0);
            let w = s.items[i];
            match find(w.tabs, is_active_tab(w.active_tab)) {
                None => {},
                Some(j) => {
                    lemma_find_result(w.tabs, is_active_tab(w.active_tab), 0);
                    let n = w.tabs.len() as int;
                    lemma_back_then_forward(j, n);
                    let b = neighbour(0, j, n);
                    let t = w.tabs[b].id;
                    let same_id = |x: WorkspaceView| x.id == w.id;
                    assert forall|x: int| 0 <= x < s.items.len() && #[trigger] same_id(s.items[x]) implies x == i by {
                        assert(s.items[x].id == s.items[i].id);
                    }
                    lemma_find_unique(s.items, same_id, i);
                    assert(has_tab(w, t));
                    let w1 = WorkspaceView { active_tab: Some(t), ..w };
                    let s1 = WorkspacesView { items: s.items.update(i, w1), active: Some(w.id), next: s.next };
                    assert(navigate_spec(s, 0) == s1);
                    assert forall|x: int| 0 <= x < s1.items.len() && #[trigger] is_current(s1.active)(
                        s1.items[x],
                    ) implies x == i by {
                        assert(s.items[x].id == s.items[i].id);
                    }
                    lemma_find_unique(s1.items, is_current(s1.active), i);
                    assert forall|x: int| 0 <= x < w1.tabs.len() && #[trigger] is_active_tab(w1.active_tab)(
                        w1.tabs[x],
                    ) implies x == b by {
                        assert(s.items[i].tabs[x].id == s.items[i].tabs[b].id);
                    }
                    lemma_find_unique(w1.tabs, is_active_tab(w1.active_tab), b);
                    assert forall|x: int| 0 <= x < s1.items.len() && #[trigger] same_id(s1.items[x]) implies x == i by {
                        assert(s.items[x].id == s.items[i].id);
                    }
                    lemma_find_unique(s1.items, same_id, i);
                    assert(has_tab(w1, w.tabs[j].id));
                    let w2 = WorkspaceView { active_tab: Some(w.tabs[j].id), ..w1 };
                    assert(w2 =~= w);
                    assert(s1.items.update(i, w2) =~= s.items);
                },
            }
        },
    }
}

proof fn lemma_panes_round_trip(s: WorkspacesView)
    requires
        sound(s),
    ensures
        navigate_spec(navigate_spec(s, 2), 3) == s,
{
    reveal(structured);
    match tab_index(s) {
        None => {},
        Some((i, j)) => {
            lemma_find_result(s.items, is_current(s.active), 0);
            let w = s.items[i];
            lemma_find_result(w.tabs, is_active_tab(w.active_tab), 0);
            let t = w.tabs[j];
            let ids = pane_ids(t.layout);
            let is_active = |id: Id| id == t.active_pane;
            match find(ids, is_active) {
                None => {},
                Some(k) => {
                    lemma_find_result(ids, is_active, 0);
                    let n = ids.len() as int;
                    lemma_back_then_forward(k, n);
                    let b = neighbour(2, k, n);
                    let p = ids[b];
                    assert(is_tab(s, i, j));
                    assert(ids.no_duplicates());
                    assert forall|x: int| 0 <= x < w.tabs.len() && #[trigger] shows_pane(w.active_tab, p)(
                        w.tabs[x],
                    ) implies x == j by {
                        assert(s.items[i].tabs[x].id == s.items[i].tabs[j].id);
                    }
                    assert(ids.contains(p));
                    lemma_find_unique(w.tabs, shows_pane(w.active_tab, p), j);
                    let t1 = TabView { active_pane: p, ..t };
                    let s1 = with_tab(s, i, j, t1);
                    assert(navigate_spec(s, 2) == s1);
                    let w1 = s1.items[i];
                    assert forall|x: int| 0 <= x < s1.items.len() && #[trigger] is_current(s1.active)(
                        s1.items[x],
                    ) implies x == i by {
                        assert(s.items[x].id == s.items[i].id);
                    }
                    lemma_find_unique(s1.items, is_current(s1.active), i);
                    assert forall|x: int| 0 <= x < w1.tabs.len() && #[trigger] is_active_tab(w1.active_tab)(
                        w1.tabs[x],
                    ) implies x == j by {
                        assert(s.items[i].tabs[x].id == s.items[i].tabs[j].id);
                    }
                    lemma_find_unique(w1.tabs, is_active_tab(w1.active_tab), j);
                    assert(tab_index(s1) == Some((i, j)));
                    let again = |id: Id| id == t1.active_pane;
                    assert forall|x: int| 0 <= x < ids.len() && #[trigger] again(ids[x]) implies x == b by {}
                    lemma_find_unique(ids, again, b);
                    assert(neighbour(3, b, n) == k);
                    assert forall|x: int| 0 <= x < w1.tabs.len() && #[trigger] shows_pane(
                        w1.active_tab,
                        t.active_pane,
                    )(w1.tabs[x]) implies x == j by {
                        assert(s.items[i].tabs[x].id == s.items[i].tabs[j].id);
                    }
                    lemma_find_unique(w1.tabs, shows_pane(w1.active_tab, t.active_pane), j);
                    let t2 = TabView { active_pane: t.active_pane, ..t1 };
                    assert(t2 =~= t);
                    assert(navigate_spec(s1, 3) == with_tab(s1, i, j, t2));
                    assert(with_tab(s1, i, j, t2).items[i] =~= w);
                    assert(with_tab(s1, i, j, t2).items =~= s.items);
                },
            }
        },
    }
}

proof fn lemma_workspaces_round_trip(s: WorkspacesView)
    requires
        sound(s),
    ensures
        navigate_spec(navigate_spec(s, 4), 5) == s,
{
    reveal(structured);
    match current_index(s) {
        None => {},
        Some(i) => {
            lemma_find_result(s.items, is_current(s.active), 0);
            let n = s.items.len() as int;
            lemma_back_then_forward(i, n);
            let b = neighbour(4, i, n);
            let back = s.items[b].id;
            let to_back = |x: WorkspaceView| x.id == back;
            assert forall|x: int| 0 <= x < s.items.len() && #[trigger] to_back(s.items[x]) implies x == b by {
                assert(s.items[x].id == s.items[b].id);
            }
            lemma_find_unique(s.items, to_back, b);
            assert(s.items.update(b, s.items[b]) =~= s.items);
            let s1 = WorkspacesView { items: s.items, active: Some(back), next: s.next };
            assert(navigate_spec(s, 4) == s1);
            assert forall|x: int| 0 <= x < s1.items.len() && #[trigger] is_current(s1.active)(s1.items[x]) implies x
                == b by {
                assert(s.items[x].id == s.items[b].id);
            }
            lemma_find_unique(s1.items, is_current(s1.active), b);
            assert(neighbour(5, b, n) == i);
            let forth = s.items[i].id;
            let to_forth = |x: WorkspaceView| x.id == forth;
            assert forall|x: int| 0 <= x < s.items.len() && #[trigger] to_forth(s.items[x]) implies x == i by {
                assert(s.items[x].id == s.items[i].id);
            }
            lemma_find_unique(s1.items, to_forth, i);
        },
    }
}

/// Stepping back and then forward through tabs (directions 0, 1), panes
/// (2, 3) or workspaces (4, 5) gives back the state as it was; any other
/// direction changes nothing.
pub proof fn law_back_then_forward_restores(s: WorkspacesView, k: nat)
    requires
        sound(s),
        k < 3,
    ensures
        navigate_spec(navigate_spec(s, 2 * k), 2 * k + 1) == s,
{
    reveal(structured);
    if k == 0 {
        lemma_tabs_round_trip(s);
    } else if k == 1 {
        lemma_panes_round_trip(s);
    } else {
        lemma_workspaces_round_trip(s);
    }
}

/// Directions above 5 name nothing to navigate.
pub proof fn law_unknown_direction_changes_nothing(s: WorkspacesView, direction: nat)
    requires
        direction >= 6,
    ensures
        navigate_spec(s, direction) == s,
{
}

} // verus!
