//! In-memory workspace state: workspaces hold tabs, tabs hold a binary
//! layout of panes. Independent of any window system or native resource.
use vstd::prelude::*;
use vstd::string::*;
use crate::text::{chars_of, decimal_chars, str_eq, trimmed};
use crate::structure::{
    law_activate_keeps_structure, law_add_tab_keeps_structure, law_add_workspace_keeps_structure,
    law_close_pane_keeps_structure, law_close_tab_keeps_structure, law_close_workspace_keeps_structure,
    law_focus_keeps_structure, law_navigate_keeps_structure, law_open_file_pane_keeps_structure,
    law_rename_keeps_structure, law_split_keeps_structure, sound, structured,
};

verus! {

pub type Id = u64;

pub const MAX_PANES: usize = 64;

pub const MAX_DEPTH: usize = 8;

pub const MAX_WORKSPACES: usize = 16;

#[derive(Clone, Copy, Debug, PartialEq, Eq, Structural)]
pub enum Axis {
    Horizontal,
    Vertical,
}

/// What a pane displays; file panes own no PTY or native resources.
#[derive(Clone, Debug, PartialEq, Eq)]
pub enum PaneKind {
    Terminal,
    File { path: String },
}

pub enum KindView {
    Terminal,
    File(Seq<char>),
}

impl View for PaneKind {
    type V = KindView;

    open spec fn view(&self) -> KindView {
        match self {
            PaneKind::Terminal => KindView::Terminal,
            PaneKind::File { path } => KindView::File(path@),
        }
    }
}

impl PaneKind {
    /// A copy with the same view.
    pub fn copy(&self) -> (r: Self)
        ensures
            r@ == self@,
    {
        match self {
            PaneKind::Terminal => PaneKind::Terminal,
            PaneKind::File { path } => PaneKind::File { path: path.as_str().to_owned() },
        }
    }
}

#[derive(Debug, PartialEq, Eq)]
pub enum Layout {
    Pane { id: Id, kind: PaneKind },
    Split { axis: Axis, first: Box<Layout>, second: Box<Layout> },
}

impl Clone for Layout {
    fn clone(&self) -> (r: Self)
        ensures
            r@ == self@,
    {
        self.copy()
    }
}

pub enum LayoutView {
    Pane(Id, KindView),
    Split(Axis, Box<LayoutView>, Box<LayoutView>),
}

impl View for Layout {
    type V = LayoutView;

    open spec fn view(&self) -> LayoutView
        decreases self,
    {
        match self {
            Layout::Pane { id, kind } => LayoutView::Pane(*id, kind@),
            Layout::Split { axis, first, second } => LayoutView::Split(
                *axis,
                Box::new((**first).view()),
                Box::new((**second).view()),
            ),
        }
    }
}

/// Panes with their kinds, in reading order.
pub open spec fn panes(l: LayoutView) -> Seq<(Id, KindView)>
    decreases l,
{
    match l {
        LayoutView::Pane(id, kind) => seq![(id, kind)],
        LayoutView::Split(_, first, second) => panes(*first) + panes(*second),
    }
}

/// Pane identifiers in reading order.
pub open spec fn pane_ids(l: LayoutView) -> Seq<Id>
    decreases l,
{
    match l {
        LayoutView::Pane(id, _) => seq![id],
        LayoutView::Split(_, first, second) => pane_ids(*first) + pane_ids(*second),
    }
}

/// The layout after splitting pane `target` (the first such pane in reading
/// order that sits above the depth limit) into itself and a new pane.
pub open spec fn split_layout(l: LayoutView, target: Id, new: Id, kind: KindView, axis: Axis, depth: nat) -> Option<LayoutView>
    decreases l,
{
    match l {
        LayoutView::Pane(id, kept) => {
            if id == target && depth < MAX_DEPTH {
                Some(
                    LayoutView::Split(
                        axis,
                        Box::new(LayoutView::Pane(target, kept)),
                        Box::new(LayoutView::Pane(new, kind)),
                    ),
                )
            } else {
                None
            }
        },
        LayoutView::Split(a, first, second) => match split_layout(*first, target, new, kind, axis, depth + 1) {
            Some(f) => Some(LayoutView::Split(a, Box::new(f), second)),
            None => match split_layout(*second, target, new, kind, axis, depth + 1) {
                Some(s) => Some(LayoutView::Split(a, first, Box::new(s))),
                None => None,
            },
        },
    }
}

/// The layout without pane `target`; a split left with one side collapses
/// into that side. `None` when no pane remains.
pub open spec fn remove_pane(l: LayoutView, target: Id) -> Option<LayoutView>
    decreases l,
{
    match l {
        LayoutView::Pane(id, _) => if id != target {
            Some(l)
        } else {
            None
        },
        LayoutView::Split(axis, first, second) => match (remove_pane(*first, target), remove_pane(*second, target)) {
            (Some(f), Some(s)) => Some(LayoutView::Split(axis, Box::new(f), Box::new(s))),
            (Some(f), None) => Some(f),
            (None, s) => s,
        },
    }
}

pub proof fn lemma_pane_ids_len(l: LayoutView)
    ensures
        pane_ids(l).len() >= 1,
        pane_ids(l).len() == panes(l).len(),
        forall|i: int| 0 <= i < pane_ids(l).len() ==> #[trigger] pane_ids(l)[i] == panes(l)[i].0,
    decreases l,
{
    match l {
        LayoutView::Pane(_, _) => {},
        LayoutView::Split(_, first, second) => {
            lemma_pane_ids_len(*first);
            lemma_pane_ids_len(*second);
            assert forall|i: int| 0 <= i < pane_ids(l).len() implies #[trigger] pane_ids(l)[i]
                == panes(l)[i].0 by {
                if i < pane_ids(*first).len() {
                    assert(pane_ids(l)[i] == pane_ids(*first)[i]);
                } else {
                    assert(pane_ids(l)[i] == pane_ids(*second)[i - pane_ids(*first).len()]);
                }
            }
        },
    }
}

/// Splitting adds exactly the new pane, right after its target.
/// `after` is `before` with `(new, kind)` inserted right after index `i`,
/// which holds `target`.
pub open spec fn inserted_after(before: Seq<(Id, KindView)>, after: Seq<(Id, KindView)>, i: int, target: Id, new: Id, kind: KindView) -> bool {
    0 <= i < before.len() && before[i].0 == target && after == before.take(i + 1) + seq![(new, kind)]
        + before.skip(i + 1)
}

pub proof fn lemma_split_panes(l: LayoutView, target: Id, new: Id, kind: KindView, axis: Axis, depth: nat)
    ensures
        split_layout(l, target, new, kind, axis, depth) matches Some(r) ==> exists|i: int|
            inserted_after(panes(l), panes(r), i, target, new, kind),
    decreases l,
{
    match l {
        LayoutView::Pane(id, kept) => {
            if id == target && depth < MAX_DEPTH {
                let r = split_layout(l, target, new, kind, axis, depth)->0;
                assert(panes(LayoutView::Pane(target, kept)) == seq![(target, kept)]);
                assert(panes(LayoutView::Pane(new, kind)) == seq![(new, kind)]);
                assert(panes(l) == seq![(id, kept)]);
                assert(panes(r) =~= panes(l).take(1) + seq![(new, kind)] + panes(l).skip(1));
                assert(panes(l)[0].0 == target);
                assert(inserted_after(panes(l), panes(r), 0, target, new, kind));
            }
        },
        LayoutView::Split(a, first, second) => {
            lemma_split_panes(*first, target, new, kind, axis, depth + 1);
            lemma_split_panes(*second, target, new, kind, axis, depth + 1);
            match split_layout(*first, target, new, kind, axis, depth + 1) {
                Some(f) => {
                    let i = choose|i: int| inserted_after(panes(*first), panes(f), i, target, new, kind);
                    let r = split_layout(l, target, new, kind, axis, depth)->0;
                    assert(panes(r) =~= panes(l).take(i + 1) + seq![(new, kind)] + panes(l).skip(
                        i + 1,
                    ));
                    assert(inserted_after(panes(l), panes(r), i, target, new, kind));
                },
                None => match split_layout(*second, target, new, kind, axis, depth + 1) {
                    Some(s) => {
                        let i = choose|i: int| inserted_after(panes(*second), panes(s), i, target, new, kind);
                        let n = panes(*first).len() as int;
                        let r = split_layout(l, target, new, kind, axis, depth)->0;
                        assert(panes(r) =~= panes(l).take(n + i + 1) + seq![(new, kind)] + panes(
                            l,
                        ).skip(n + i + 1));
                        assert(inserted_after(panes(l), panes(r), n + i, target, new, kind));
                    },
                    None => {},
                },
            }
        },
    }
}

impl Layout {
    /// A copy with the same view.
    pub fn copy(&self) -> (r: Self)
        ensures
            r@ == self@,
        decreases self,
    {
        match self {
            Layout::Pane { id, kind } => Layout::Pane { id: *id, kind: kind.copy() },
            Layout::Split { axis, first, second } => Layout::Split {
                axis: *axis,
                first: Box::new(first.copy()),
                second: Box::new(second.copy()),
            },
        }
    }

    pub fn panes_with_kinds(&self) -> (r: Vec<(Id, PaneKind)>)
        ensures
            r@.len() == panes(self@).len(),
            forall|i: int| 0 <= i < r@.len() ==> (#[trigger] r@[i].0, r@[i].1@) == panes(self@)[i],
        decreases self,
    {
        match self {
            Layout::Pane { id, kind } => {
                let r = vec![(*id, kind.copy())];
                r
            },
            Layout::Split { first, second, .. } => {
                let mut items = first.panes_with_kinds();
                let mut rest = second.panes_with_kinds();
                let ghost a = items@;
                let ghost b = rest@;
                items.append(&mut rest);
                proof {
                    assert forall|i: int| 0 <= i < items@.len() implies (#[trigger] items@[i].0, items@[i].1@)
                        == panes(self@)[i] by {
                        if i < a.len() {
                            assert(items@[i] == a[i]);
                        } else {
                            assert(items@[i] == b[i - a.len()]);
                        }
                    }
                }
                items
            },
        }
    }

    pub fn panes(&self) -> (r: Vec<Id>)
        ensures
            r@ == pane_ids(self@),
        decreases self,
    {
        match self {
            Layout::Pane { id, .. } => vec![*id],
            Layout::Split { first, second, .. } => {
                let mut items = first.panes();
                let mut rest = second.panes();
                items.append(&mut rest);
                items
            },
        }
    }

    /// Whether the layout shows pane `pane`.
    pub fn contains(&self, pane: Id) -> (r: bool)
        ensures
            r == pane_ids(self@).contains(pane),
        decreases self,
    {
        match self {
            Layout::Pane { id, .. } => {
                proof {
                    if *id == pane {
                        assert(pane_ids(self@)[0] == pane);
                    }
                }
                *id == pane
            },
            Layout::Split { first, second, .. } => {
                let a = first.contains(pane);
                let b = second.contains(pane);
                proof {
                    let x = pane_ids((**first)@);
                    let y = pane_ids((**second)@);
                    if a {
                        let i = choose|i: int| 0 <= i < x.len() && x[i] == pane;
                        assert((x + y)[i] == pane);
                    }
                    if b {
                        let i = choose|i: int| 0 <= i < y.len() && y[i] == pane;
                        assert((x + y)[x.len() + i] == pane);
                    }
                    if (x + y).contains(pane) {
                        let i = choose|i: int| 0 <= i < (x + y).len() && (x + y)[i] == pane;
                        if i < x.len() {
                            assert(x[i] == pane);
                        } else {
                            assert(y[i - x.len()] == pane);
                        }
                    }
                }
                a || b
            },
        }
    }

    fn split(&mut self, target: Id, new: Id, kind: PaneKind, axis: Axis, depth: usize) -> (r: bool)
        requires
            depth + pane_ids(old(self)@).len() <= 2 * MAX_PANES,
        ensures
            match split_layout(old(self)@, target, new, kind@, axis, depth as nat) {
                Some(l) => r && final(self)@ == l,
                None => !r && final(self)@ == old(self)@,
            },
        decreases *old(self),
    {
        let ghost before = self@;
        let hit = match self {
            Layout::Pane { id, .. } => *id == target && depth < MAX_DEPTH,
            Layout::Split { .. } => false,
        };
        if hit {
            let kept = match self {
                Layout::Pane { kind: kept, .. } => kept.copy(),
                Layout::Split { .. } => PaneKind::Terminal,
            };
            assert(before matches LayoutView::Pane(_, k) && k == kept@);
            let ghost kind_view = kind@;
            let left = Layout::Pane { id: target, kind: kept };
            let right = Layout::Pane { id: new, kind };
            assert(left@ == LayoutView::Pane(target, before->Pane_1));
            assert(right@ == LayoutView::Pane(new, kind_view));
            *self = Layout::Split { axis, first: Box::new(left), second: Box::new(right) };
            assert(self@ == split_layout(before, target, new, kind_view, axis, depth as nat)->0);
            return true;
        }
        match self {
            Layout::Pane { .. } => false,
            Layout::Split { first, second, .. } => {
                proof {
                    lemma_pane_ids_len((**first)@);
                    lemma_pane_ids_len((**second)@);
                }
                if first.split(target, new, kind.copy(), axis, depth + 1) {
                    true
                } else {
                    second.split(target, new, kind, axis, depth + 1)
                }
            },
        }
    }

    fn remove(self, target: Id) -> (r: Option<Self>)
        ensures
            match r {
                Some(l) => remove_pane(self@, target) == Some(l@),
                None => remove_pane(self@, target) is None,
            },
        decreases self,
    {
        match self {
            Layout::Pane { id, kind } => {
                if id != target {
                    Some(Layout::Pane { id, kind })
                } else {
                    None
                }
            },
            Layout::Split { axis, first, second } => {
                match ((*first).remove(target), (*second).remove(target)) {
                    (Some(f), Some(s)) => Some(Layout::Split { axis, first: Box::new(f), second: Box::new(s) }),
                    (Some(f), None) => Some(f),
                    (None, s) => s,
                }
            },
        }
    }
}

} // verus!

verus! {

#[derive(Debug)]
pub struct Tab {
    pub id: Id,
    pub title: String,
    pub layout: Layout,
    pub active_pane: Id,
}

#[verifier::ext_equal]
pub struct TabView {
    pub id: Id,
    pub title: Seq<char>,
    pub layout: LayoutView,
    pub active_pane: Id,
}

impl View for Tab {
    type V = TabView;

    open spec fn view(&self) -> TabView {
        TabView { id: self.id, title: self.title@, layout: self.layout@, active_pane: self.active_pane }
    }
}

#[derive(Debug)]
pub struct Workspace {
    pub id: Id,
    pub root: String,
    pub tabs: Vec<Tab>,
    pub active_tab: Option<Id>,
    next_tab: u64,
}

#[verifier::ext_equal]
pub struct WorkspaceView {
    pub id: Id,
    pub root: Seq<char>,
    pub tabs: Seq<TabView>,
    pub active_tab: Option<Id>,
    /// Number used in the title of the next new tab, minus one.
    pub next_tab: u64,
}

impl View for Workspace {
    type V = WorkspaceView;

    closed spec fn view(&self) -> WorkspaceView {
        WorkspaceView {
            id: self.id,
            root: self.root@,
            tabs: self.tabs@.map_values(|t: Tab| t@),
            active_tab: self.active_tab,
            next_tab: self.next_tab,
        }
    }
}

pub struct Workspaces {
    pub items: Vec<Workspace>,
    pub active: Option<Id>,
    next: Id,
}

#[verifier::ext_equal]
pub struct WorkspacesView {
    pub items: Seq<WorkspaceView>,
    pub active: Option<Id>,
    /// The last identifier handed out.
    pub next: Id,
}

impl View for Workspaces {
    type V = WorkspacesView;

    closed spec fn view(&self) -> WorkspacesView {
        WorkspacesView { items: self.items@.map_values(|w: Workspace| w@), active: self.active, next: self.next }
    }
}

/// Index of the first element at or after `i` that satisfies `p`.
pub open spec fn find_from<A>(s: Seq<A>, p: spec_fn(A) -> bool, i: int) -> Option<int>
    decreases s.len() - i,
{
    if i < 0 || i >= s.len() {
        None
    } else if p(s[i]) {
        Some(i)
    } else {
        find_from(s, p, i + 1)
    }
}

/// Index of the first element that satisfies `p`.
pub open spec fn find<A>(s: Seq<A>, p: spec_fn(A) -> bool) -> Option<int> {
    find_from(s, p, 0)
}

pub proof fn lemma_find_from_step<A>(s: Seq<A>, p: spec_fn(A) -> bool, i: int)
    requires
        0 <= i < s.len(),
        !p(s[i]),
    ensures
        find_from(s, p, i) == find_from(s, p, i + 1),
{
}

pub proof fn lemma_find_result<A>(s: Seq<A>, p: spec_fn(A) -> bool, i: int)
    requires
        0 <= i,
    ensures
        find_from(s, p, i) matches Some(k) ==> i <= k < s.len() && p(s[k]) && forall|j: int|
            i <= j < k ==> !p(#[trigger] s[j]),
        find_from(s, p, i) is None ==> forall|j: int| i <= j < s.len() ==> !p(#[trigger] s[j]),
    decreases s.len() - i,
{
    if i < s.len() && !p(s[i]) {
        lemma_find_result(s, p, i + 1);
    }
}

/// Pane identifiers of a sequence of tabs, tab after tab.
pub open spec fn tabs_pane_ids(tabs: Seq<TabView>) -> Seq<Id>
    decreases tabs.len(),
{
    if tabs.len() == 0 {
        Seq::empty()
    } else {
        tabs_pane_ids(tabs.drop_last()) + pane_ids(tabs.last().layout)
    }
}

/// Sum of a sequence of counts.
pub open spec fn sum(s: Seq<nat>) -> nat
    decreases s.len(),
{
    if s.len() == 0 {
        0
    } else {
        sum(s.drop_last()) + s.last()
    }
}

/// Panes of each tab.
pub open spec fn tab_counts(tabs: Seq<TabView>) -> Seq<nat> {
    tabs.map_values(|t: TabView| pane_ids(t.layout).len())
}

/// Panes of each workspace.
pub open spec fn workspace_counts(items: Seq<WorkspaceView>) -> Seq<nat> {
    items.map_values(|w: WorkspaceView| sum(tab_counts(w.tabs)))
}

/// Live panes across all workspaces and tabs.
pub open spec fn total_panes(items: Seq<WorkspaceView>) -> nat {
    sum(workspace_counts(items))
}

pub proof fn lemma_sum_prefix(s: Seq<nat>, k: int)
    requires
        0 <= k <= s.len(),
    ensures
        sum(s.take(k)) <= sum(s),
        k < s.len() ==> sum(s.take(k + 1)) == sum(s.take(k)) + s[k],
    decreases s.len() - k,
{
    if k < s.len() {
        assert(s.take(k + 1).drop_last() =~= s.take(k));
        lemma_sum_prefix(s, k + 1);
    } else {
        assert(s.take(k) =~= s);
    }
}

pub proof fn lemma_sum_concat(a: Seq<nat>, b: Seq<nat>)
    ensures
        sum(a + b) == sum(a) + sum(b),
    decreases b.len(),
{
    if b.len() == 0 {
        assert(a + b =~= a);
    } else {
        assert((a + b).drop_last() =~= a + b.drop_last());
        lemma_sum_concat(a, b.drop_last());
    }
}

pub proof fn lemma_sum_update(s: Seq<nat>, i: int, v: nat)
    requires
        0 <= i < s.len(),
    ensures
        sum(s.update(i, v)) + s[i] == sum(s) + v,
{
    assert(s =~= s.take(i) + seq![s[i]] + s.skip(i + 1));
    assert(s.update(i, v) =~= s.take(i) + seq![v] + s.skip(i + 1));
    lemma_sum_concat(s.take(i) + seq![s[i]], s.skip(i + 1));
    lemma_sum_concat(s.take(i), seq![s[i]]);
    lemma_sum_concat(s.take(i) + seq![v], s.skip(i + 1));
    lemma_sum_concat(s.take(i), seq![v]);
    lemma_sum_single(s[i]);
    lemma_sum_single(v);
}

pub proof fn lemma_sum_remove(s: Seq<nat>, i: int)
    requires
        0 <= i < s.len(),
    ensures
        sum(s.remove(i)) + s[i] == sum(s),
{
    assert(s =~= s.take(i) + seq![s[i]] + s.skip(i + 1));
    assert(s.remove(i) =~= s.take(i) + s.skip(i + 1));
    lemma_sum_concat(s.take(i) + seq![s[i]], s.skip(i + 1));
    lemma_sum_concat(s.take(i), seq![s[i]]);
    lemma_sum_concat(s.take(i), s.skip(i + 1));
    lemma_sum_single(s[i]);
}

pub proof fn lemma_sum_single(x: nat)
    ensures
        sum(seq![x]) == x,
{
    assert(seq![x].drop_last() =~= Seq::<nat>::empty());
    assert(sum(Seq::<nat>::empty()) == 0);
    assert(seq![x].last() == x);
}

pub proof fn lemma_sum_push(s: Seq<nat>, v: nat)
    ensures
        sum(s.push(v)) == sum(s) + v,
{
    assert(s.push(v).drop_last() =~= s);
}

/// The state invariant: bounded workspaces and panes, and tab numbering that
/// stays behind the identifier counter.
pub open spec fn wf(s: WorkspacesView) -> bool {
    &&& s.items.len() <= MAX_WORKSPACES
    &&& total_panes(s.items) <= MAX_PANES
    &&& forall|i: int| 0 <= i < s.items.len() ==> (#[trigger] s.items[i]).next_tab <= s.next
}

/// Room for `n` more identifiers.
pub open spec fn can_allocate(s: WorkspacesView, n: nat) -> bool {
    s.next + n <= u64::MAX
}

pub open spec fn is_current(active: Option<Id>) -> spec_fn(WorkspaceView) -> bool {
    |w: WorkspaceView| Some(w.id) == active
}

pub open spec fn is_active_tab(active_tab: Option<Id>) -> spec_fn(TabView) -> bool {
    |t: TabView| Some(t.id) == active_tab
}

/// Index of the active workspace.
pub open spec fn current_index(s: WorkspacesView) -> Option<int> {
    find(s.items, is_current(s.active))
}

/// Indices of the active workspace and its active tab.
pub open spec fn tab_index(s: WorkspacesView) -> Option<(int, int)> {
    match current_index(s) {
        None => None,
        Some(i) => match find(s.items[i].tabs, is_active_tab(s.items[i].active_tab)) {
            None => None,
            Some(j) => Some((i, j)),
        },
    }
}

/// `s` with tab `j` of workspace `i` replaced.
pub open spec fn with_tab(s: WorkspacesView, i: int, j: int, t: TabView) -> WorkspacesView {
    WorkspacesView {
        items: s.items.update(i, WorkspaceView { tabs: s.items[i].tabs.update(j, t), ..s.items[i] }),
        ..s
    }
}

/// `s` with workspace `i` replaced.
pub open spec fn with_workspace(s: WorkspacesView, i: int, w: WorkspaceView) -> WorkspacesView {
    WorkspacesView { items: s.items.update(i, w), ..s }
}

pub open spec fn has_tab(w: WorkspaceView, id: Id) -> bool {
    exists|j: int| 0 <= j < w.tabs.len() && (#[trigger] w.tabs[j]).id == id
}

/// Activate a workspace and, when it owns that tab, one of its tabs.
pub open spec fn activate_spec(s: WorkspacesView, workspace: Id, tab: Option<Id>) -> WorkspacesView {
    match find(s.items, |w: WorkspaceView| w.id == workspace) {
        None => s,
        Some(i) => {
            let w = s.items[i];
            let w2 = match tab {
                Some(id) => if has_tab(w, id) {
                    WorkspaceView { active_tab: Some(id), ..w }
                } else {
                    w
                },
                None => w,
            };
            WorkspacesView { items: s.items.update(i, w2), active: Some(workspace), next: s.next }
        },
    }
}

pub open spec fn shows_pane(active_tab: Option<Id>, pane: Id) -> spec_fn(TabView) -> bool {
    |t: TabView| Some(t.id) == active_tab && pane_ids(t.layout).contains(pane)
}

/// Make `pane` the active pane of the active tab, when that tab shows it.
pub open spec fn focus_spec(s: WorkspacesView, pane: Id) -> WorkspacesView {
    match current_index(s) {
        None => s,
        Some(i) => match find(s.items[i].tabs, shows_pane(s.items[i].active_tab, pane)) {
            None => s,
            Some(j) => with_tab(s, i, j, TabView { active_pane: pane, ..s.items[i].tabs[j] }),
        },
    }
}

/// The neighbour of `position` among `len` entries: even directions step
/// backwards, odd ones forwards, both wrapping.
pub open spec fn neighbour(direction: nat, position: int, len: int) -> int {
    if direction % 2 == 0 {
        (position + len - 1) % len
    } else {
        (position + 1) % len
    }
}

/// Cycle tabs (0, 1), panes (2, 3) or workspaces (4, 5).
pub open spec fn navigate_spec(s: WorkspacesView, direction: nat) -> WorkspacesView {
    if direction == 0 || direction == 1 {
        match current_index(s) {
            None => s,
            Some(i) => {
                let w = s.items[i];
                match find(w.tabs, is_active_tab(w.active_tab)) {
                    None => s,
                    Some(j) => activate_spec(s, w.id, Some(w.tabs[neighbour(direction, j, w.tabs.len() as int)].id)),
                }
            },
        }
    } else if direction == 2 || direction == 3 {
        match tab_index(s) {
            None => s,
            Some((i, j)) => {
                let t = s.items[i].tabs[j];
                let ids = pane_ids(t.layout);
                match find(ids, |id: Id| id == t.active_pane) {
                    None => s,
                    Some(k) => focus_spec(s, ids[neighbour(direction, k, ids.len() as int)]),
                }
            },
        }
    } else if direction == 4 || direction == 5 {
        match current_index(s) {
            None => s,
            Some(i) => activate_spec(s, s.items[neighbour(direction, i, s.items.len() as int)].id, None),
        }
    } else {
        s
    }
}

} // verus!

verus! {

/// Workspace `w` with a new terminal tab `id` showing pane `pane`, titled
/// after the workspace's tab counter.
pub open spec fn new_tab(w: WorkspaceView, id: Id, pane: Id) -> WorkspaceView {
    let n = (w.next_tab + 1) as u64;
    WorkspaceView {
        tabs: w.tabs.push(
            TabView {
                id,
                title: "Terminal "@ + decimal_chars(n as nat),
                layout: LayoutView::Pane(pane, KindView::Terminal),
                active_pane: pane,
            },
        ),
        active_tab: Some(id),
        next_tab: n,
        ..w
    }
}

/// Open a terminal tab in the active workspace.
pub open spec fn add_tab_spec(s: WorkspacesView) -> (WorkspacesView, Result<Id, &'static str>) {
    match current_index(s) {
        None => (s, Err("Open a workspace first")),
        Some(i) => if total_panes(s.items) >= MAX_PANES {
            (s, Err("Terminal limit reached (64)"))
        } else {
            let id = (s.next + 1) as u64;
            let pane = (s.next + 2) as u64;
            (
                WorkspacesView {
                    items: s.items.update(i, new_tab(s.items[i], id, pane)),
                    active: s.active,
                    next: pane,
                },
                Ok(pane),
            )
        },
    }
}

/// A workspace whose root has the same components as `root`.
pub open spec fn same_root(root: Seq<char>) -> spec_fn(WorkspaceView) -> bool {
    |w: WorkspaceView| root_components(w.root) == root_components(root)
}

/// Open (or re-activate) the workspace rooted at `root`, roots being
/// compared by their components; a new workspace starts with one terminal
/// tab and keeps `root` as it was given.
pub open spec fn add_workspace_spec(s: WorkspacesView, root: Seq<char>) -> (WorkspacesView, Result<Id, &'static str>) {
    match find(s.items, same_root(root)) {
        Some(k) => (WorkspacesView { active: Some(s.items[k].id), ..s }, Ok(s.items[k].id)),
        None => if s.items.len() >= MAX_WORKSPACES {
            (s, Err("Workspace limit reached (16)"))
        } else if total_panes(s.items) >= MAX_PANES {
            (s, Err("Pane limit reached (64)"))
        } else {
            let id = (s.next + 1) as u64;
            let opened = WorkspacesView {
                items: s.items.push(
                    WorkspaceView { id, root, tabs: Seq::empty(), active_tab: None, next_tab: 0 },
                ),
                active: Some(id),
                next: id,
            };
            let (after, result) = add_tab_spec(opened);
            (
                after,
                match result {
                    Ok(_) => Ok(id),
                    Err(e) => Err(e),
                },
            )
        },
    }
}

/// Rename tab `id` of the active workspace to the trimmed title.
pub open spec fn rename_tab_spec(s: WorkspacesView, id: Id, title: Seq<char>) -> (WorkspacesView, Result<(), &'static str>) {
    let name = trimmed(title);
    if name.len() == 0 {
        (s, Err("Tab name cannot be empty"))
    } else if name.len() > 80 {
        (s, Err("Tab name is too long (80 characters maximum)"))
    } else {
        match current_index(s) {
            None => (s, Err("Terminal tab not found")),
            Some(i) => match find(s.items[i].tabs, |t: TabView| t.id == id) {
                None => (s, Err("Terminal tab not found")),
                Some(j) => (with_tab(s, i, j, TabView { title: name, ..s.items[i].tabs[j] }), Ok(())),
            },
        }
    }
}

proof fn lemma_tab_counts_update(tabs: Seq<TabView>, j: int, t: TabView)
    requires
        0 <= j < tabs.len(),
    ensures
        sum(tab_counts(tabs.update(j, t))) + pane_ids(tabs[j].layout).len() == sum(tab_counts(tabs))
            + pane_ids(t.layout).len(),
{
    assert(tab_counts(tabs.update(j, t)) =~= tab_counts(tabs).update(j, pane_ids(t.layout).len()));
    lemma_sum_update(tab_counts(tabs), j, pane_ids(t.layout).len());
}

proof fn lemma_workspace_counts_update(items: Seq<WorkspaceView>, i: int, w: WorkspaceView)
    requires
        0 <= i < items.len(),
    ensures
        total_panes(items.update(i, w)) + sum(tab_counts(items[i].tabs)) == total_panes(items) + sum(
            tab_counts(w.tabs),
        ),
{
    assert(workspace_counts(items.update(i, w)) =~= workspace_counts(items).update(
        i,
        sum(tab_counts(w.tabs)),
    ));
    lemma_sum_update(workspace_counts(items), i, sum(tab_counts(w.tabs)));
}

/// Replacing one tab of workspace `i` changes the total by the change in
/// that tab's panes.
proof fn lemma_with_tab_total(s: WorkspacesView, i: int, j: int, t: TabView)
    requires
        0 <= i < s.items.len(),
        0 <= j < s.items[i].tabs.len(),
    ensures
        total_panes(with_tab(s, i, j, t).items) + pane_ids(s.items[i].tabs[j].layout).len() == total_panes(
            s.items,
        ) + pane_ids(t.layout).len(),
{
    let w = s.items[i];
    let w2 = WorkspaceView { tabs: w.tabs.update(j, t), ..w };
    lemma_tab_counts_update(w.tabs, j, t);
    lemma_workspace_counts_update(s.items, i, w2);
}

/// The `/`-separated parts of a path, as `str::split('/')` yields them.
pub open spec fn segments(s: Seq<char>) -> Seq<Seq<char>>
    decreases s.len(),
{
    if s.len() == 0 {
        seq![Seq::<char>::empty()]
    } else {
        let prev = segments(s.drop_last());
        if s.last() == '/' {
            prev.push(Seq::<char>::empty())
        } else {
            prev.update(prev.len() - 1, prev.last().push(s.last()))
        }
    }
}

/// A path part that is neither empty nor `.` nor `..`.
pub open spec fn proper_segment(p: Seq<char>) -> bool {
    p.len() > 0 && p != seq!['.'] && p != seq!['.', '.']
}

/// Every part of the path is proper: no leading, trailing or doubled `/`,
/// and no `.` or `..` component.
pub open spec fn normalized(s: Seq<char>) -> bool {
    forall|i: int| 0 <= i < segments(s).len() ==> proper_segment(#[trigger] segments(s)[i])
}

/// A backslash, colon or NUL, none of which a normalized path holds.
pub open spec fn forbidden_char(c: char) -> bool {
    c == '\\' || c == ':' || c == '\0'
}

/// Why a workspace-relative file path is rejected, if it is.
pub open spec fn path_error(path: Seq<char>) -> Option<&'static str> {
    if path.len() == 0 {
        Some("Select a file to open")
    } else if vstd::utf8::encode_utf8(path).len() > 8192 {
        Some("The file path is too long")
    } else if (exists|i: int| 0 <= i < path.len() && forbidden_char(#[trigger] path[i])) || !normalized(
        path,
    ) {
        Some("Use a normalized relative file path")
    } else {
        None
    }
}

/// A part of a root that names a folder: neither empty nor `.`.
pub open spec fn named_part(p: Seq<char>) -> bool {
    p.len() > 0 && p != seq!['.']
}

pub open spec fn names_folder() -> spec_fn(Seq<char>) -> bool {
    |p: Seq<char>| named_part(p)
}

/// The components of a workspace root as `Path` compares them with `/` as
/// the separator, as on Unix: `/` for an absolute root, `.` for a relative
/// root whose first part is `.`, then each part between separators that is
/// neither empty nor `.`. Doubled and trailing separators and `.` parts
/// therefore make no difference; `..` parts are kept as they are.
pub open spec fn root_components(root: Seq<char>) -> Seq<Seq<char>> {
    let lead = if root.len() > 0 && root[0] == '/' {
        seq![seq!['/']]
    } else if root.len() > 0 && root[0] == '.' && (root.len() == 1 || root[1] == '/') {
        seq![seq!['.']]
    } else {
        Seq::empty()
    };
    lead + segments(root).filter(names_folder())
}

pub open spec fn parts_view(v: Seq<Vec<char>>) -> Seq<Seq<char>> {
    v.map_values(|x: Vec<char>| x@)
}

/// The components of `root`, as `root_components` describes them.
pub fn root_parts(root: &str) -> (r: Vec<Vec<char>>)
    ensures
        parts_view(r@) == root_components(root@),
{
    let s = chars_of(root);
    let mut out: Vec<Vec<char>> = Vec::new();
    if s.len() > 0 && (s[0] == '/' || (s[0] == '.' && (s.len() == 1 || s[1] == '/'))) {
        let mut first: Vec<char> = Vec::new();
        first.push(s[0]);
        out.push(first);
        proof {
            assert(out@[0]@ =~= seq![s@[0]]);
            assert(parts_view(out@) =~= seq![seq![s@[0]]]);
        }
    }
    let ghost lead = parts_view(out@);
    proof {
        let l = if root@.len() > 0 && root@[0] == '/' {
            seq![seq!['/']]
        } else if root@.len() > 0 && root@[0] == '.' && (root@.len() == 1 || root@[1] == '/') {
            seq![seq!['.']]
        } else {
            Seq::empty()
        };
        assert(lead =~= l);
        assert(s@.take(0) =~= Seq::<char>::empty());
        reveal(Seq::filter);
        assert(segments(s@.take(0)).drop_last() =~= Seq::<Seq<char>>::empty());
        assert(Seq::<Seq<char>>::empty().filter(names_folder()) =~= Seq::<Seq<char>>::empty());
        assert(lead + Seq::<Seq<char>>::empty() =~= lead);
    }
    let mut cur: Vec<char> = Vec::new();
    let mut i: usize = 0;
    while i < s.len()
        invariant
            i <= s@.len(),
            s@ == root@,
            parts_view(out@) == lead + segments(s@.take(i as int)).drop_last().filter(names_folder()),
            cur@ == segments(s@.take(i as int)).last(),
        decreases s@.len() - i,
    {
        let ghost before = segments(s@.take(i as int));
        proof {
            lemma_segments_nonempty(s@.take(i as int));
            assert(s@.take(i + 1).drop_last() =~= s@.take(i as int));
            assert(s@.take(i + 1).last() == s@[i as int]);
        }
        if s[i] == '/' {
            let named = cur.len() > 0 && !(cur.len() == 1 && cur[0] == '.');
            proof {
                lemma_dot_segments(cur@);
                assert(before.drop_last().push(before.last()) =~= before);
                before.drop_last().lemma_filter_push(before.last(), names_folder());
                let after = segments(s@.take(i + 1));
                assert(after == before.push(Seq::<char>::empty()));
                assert(after.drop_last() =~= before);
            }
            if named {
                let ghost prev = out@;
                out.push(cur);
                proof {
                    assert(parts_view(out@) =~= parts_view(prev).push(before.last()));
                }
            }
            cur = Vec::new();
            proof {
                assert(cur@ =~= segments(s@.take(i + 1)).last());
            }
        } else {
            cur.push(s[i]);
            proof {
                let after = segments(s@.take(i + 1));
                assert(after == before.update(before.len() - 1, before.last().push(s@[i as int])));
                assert(after.drop_last() =~= before.drop_last());
                assert(cur@ =~= after.last());
            }
        }
        i += 1;
    }
    let named = cur.len() > 0 && !(cur.len() == 1 && cur[0] == '.');
    let ghost all = segments(s@.take(i as int));
    proof {
        lemma_dot_segments(cur@);
        lemma_segments_nonempty(s@.take(i as int));
        assert(all.drop_last().push(all.last()) =~= all);
        all.drop_last().lemma_filter_push(all.last(), names_folder());
        assert(s@.take(i as int) =~= s@);
    }
    if named {
        let ghost prev = out@;
        out.push(cur);
        proof {
            assert(parts_view(out@) =~= parts_view(prev).push(all.last()));
        }
    }
    proof {
        assert(parts_view(out@) =~= lead + all.filter(names_folder()));
    }
    out
}

fn chars_eq(a: &Vec<char>, b: &Vec<char>) -> (r: bool)
    ensures
        r == (a@ == b@),
{
    if a.len() != b.len() {
        return false;
    }
    let mut i: usize = 0;
    while i < a.len()
        invariant
            i <= a@.len(),
            a@.len() == b@.len(),
            forall|j: int| 0 <= j < i ==> a@[j] == b@[j],
        decreases a@.len() - i,
    {
        if a[i] != b[i] {
            return false;
        }
        i += 1;
    }
    assert(a@ =~= b@);
    true
}

/// Equality of two component lists.
pub fn same_parts(a: &Vec<Vec<char>>, b: &Vec<Vec<char>>) -> (r: bool)
    ensures
        r == (parts_view(a@) == parts_view(b@)),
{
    if a.len() != b.len() {
        assert(parts_view(a@).len() != parts_view(b@).len());
        return false;
    }
    let mut i: usize = 0;
    while i < a.len()
        invariant
            i <= a@.len(),
            a@.len() == b@.len(),
            forall|j: int| 0 <= j < i ==> a@[j]@ == b@[j]@,
        decreases a@.len() - i,
    {
        if !chars_eq(&a[i], &b[i]) {
            assert(parts_view(a@)[i as int] != parts_view(b@)[i as int]);
            return false;
        }
        i += 1;
    }
    assert(parts_view(a@) =~= parts_view(b@));
    true
}

pub proof fn lemma_segments_nonempty(s: Seq<char>)
    ensures
        segments(s).len() >= 1,
    decreases s.len(),
{
    if s.len() > 0 {
        lemma_segments_nonempty(s.drop_last());
    }
}

proof fn lemma_dot_segments(p: Seq<char>)
    ensures
        (p == seq!['.']) == (p.len() == 1 && p[0] == '.'),
        (p == seq!['.', '.']) == (p.len() == 2 && p[0] == '.' && p[1] == '.'),
{
    if p.len() == 1 && p[0] == '.' {
        assert(p =~= seq!['.']);
    }
    if p.len() == 2 && p[0] == '.' && p[1] == '.' {
        assert(p =~= seq!['.', '.']);
    }
}

/// Checks that the completed parts are proper and tracks the open one.
fn normalized_chars(s: &[char]) -> (r: bool)
    ensures
        r == normalized(s@),
{
    let mut cur: Vec<char> = Vec::new();
    let mut ok = true;
    let mut i: usize = 0;
    assert(s@.take(0) =~= Seq::<char>::empty());
    while i < s.len()
        invariant
            i <= s@.len(),
            segments(s@.take(i as int)).len() >= 1,
            cur@ == segments(s@.take(i as int)).last(),
            ok == forall|k: int|
                0 <= k < segments(s@.take(i as int)).len() - 1 ==> proper_segment(
                    #[trigger] segments(s@.take(i as int))[k],
                ),
        decreases s@.len() - i,
    {
        let ghost before = segments(s@.take(i as int));
        assert(s@.take(i + 1).drop_last() =~= s@.take(i as int));
        if s[i] == '/' {
            let proper = cur.len() > 0 && !(cur.len() == 1 && cur[0] == '.') && !(cur.len() == 2
                && cur[0] == '.' && cur[1] == '.');
            proof {
                lemma_dot_segments(cur@);
            }
            ok = ok && proper;
            cur = Vec::new();
            proof {
                let after = segments(s@.take(i + 1));
                assert(after == before.push(Seq::<char>::empty()));
                assert(ok == forall|k: int|
                    0 <= k < after.len() - 1 ==> proper_segment(#[trigger] after[k])) by {
                    assert forall|k: int| 0 <= k < after.len() - 1 implies after[k] == before[k] by {}
                }
                assert(cur@ =~= after.last());
            }
        } else {
            cur.push(s[i]);
            proof {
                let after = segments(s@.take(i + 1));
                assert(after == before.update(before.len() - 1, before.last().push(s@[i as int])));
                assert(cur@ =~= after.last());
                assert forall|k: int| 0 <= k < after.len() - 1 implies after[k] == before[k] by {}
            }
        }
        i += 1;
    }
    let proper = cur.len() > 0 && !(cur.len() == 1 && cur[0] == '.') && !(cur.len() == 2 && cur[0]
        == '.' && cur[1] == '.');
    proof {
        lemma_dot_segments(cur@);
    }
    assert(s@.take(i as int) =~= s@);
    ok && proper
}

/// Mirrors the file service's normalized relative path rules so invalid
/// paths never enter workspace models.
pub fn validate_relative_path(path: &str) -> (r: Result<String, &'static str>)
    ensures
        match r {
            Ok(p) => path_error(path@) is None && p@ == path@,
            Err(e) => path_error(path@) == Some(e),
        },
{
    if path.is_empty() {
        return Err("Select a file to open");
    }
    if path.as_bytes().len() > 8192 {
        return Err("The file path is too long");
    }
    let chars = chars_of(path);
    let mut i: usize = 0;
    while i < chars.len()
        invariant
            i <= chars@.len(),
            chars@ == path@,
            path@.len() > 0,
            path.spec_bytes().len() <= 8192,
            forall|k: int| 0 <= k < i ==> !forbidden_char(#[trigger] chars@[k]),
        decreases chars@.len() - i,
    {
        if chars[i] == '\\' || chars[i] == ':' || chars[i] == '\0' {
            assert(forbidden_char(path@[i as int]));
            return Err("Use a normalized relative file path");
        }
        i += 1;
    }
    if !normalized_chars(&chars) {
        return Err("Use a normalized relative file path");
    }
    Ok(path.to_owned())
}

/// Place `kind` as a new pane beside the active pane of tab `j` of
/// workspace `i`. The new identifier is used up even when the split is
/// refused at the depth limit.
pub open spec fn split_at(s: WorkspacesView, i: int, j: int, kind: KindView, axis: Axis) -> (WorkspacesView, Result<Id, &'static str>) {
    let new = (s.next + 1) as u64;
    let counted = WorkspacesView { next: new, ..s };
    let t = s.items[i].tabs[j];
    match split_layout(t.layout, t.active_pane, new, kind, axis, 0) {
        None => (counted, Err("Split depth limit reached (8)")),
        Some(l) => (with_tab(counted, i, j, TabView { layout: l, active_pane: new, ..t }), Ok(new)),
    }
}

/// Split the active pane of the active tab with a new terminal pane.
pub open spec fn split_spec(s: WorkspacesView, axis: Axis) -> (WorkspacesView, Result<Id, &'static str>) {
    if total_panes(s.items) >= MAX_PANES {
        (s, Err("Pane limit reached (64)"))
    } else {
        match tab_index(s) {
            None => (s, Err("Open a tab first")),
            Some((i, j)) => split_at(s, i, j, KindView::Terminal, axis),
        }
    }
}

pub open spec fn is_file(path: Seq<char>) -> spec_fn((Id, KindView)) -> bool {
    |p: (Id, KindView)| p.1 == KindView::File(path)
}

/// The pane of the active tab that already shows this file, if any.
pub open spec fn file_pane_spec(s: WorkspacesView, path: Seq<char>) -> Option<Id> {
    match tab_index(s) {
        None => None,
        Some((i, j)) => {
            let ps = panes(s.items[i].tabs[j].layout);
            match find(ps, is_file(path)) {
                Some(k) => Some(ps[k].0),
                None => None,
            }
        },
    }
}

/// Open a file viewer beside the active pane, or focus the pane already
/// showing that file.
pub open spec fn open_file_pane_spec(s: WorkspacesView, path: &str) -> (WorkspacesView, Result<Id, &'static str>) {
    match path_error(path@) {
        Some(e) => (s, Err(e)),
        None => match file_pane_spec(s, path@) {
            Some(existing) => (focus_spec(s, existing), Ok(existing)),
            None => if total_panes(s.items) >= MAX_PANES {
                (s, Err("Pane limit reached (64)"))
            } else {
                match tab_index(s) {
                    None => (s, Err("Open a tab first")),
                    Some((i, j)) => split_at(s, i, j, KindView::File(path@), Axis::Horizontal),
                }
            },
        },
    }
}

/// The tab that becomes active after removing the one at index `j`: the
/// one now at `j`, or the last one.
pub open spec fn tab_after_close(tabs: Seq<TabView>, j: int) -> Option<Id> {
    if tabs.len() == 0 {
        None
    } else {
        Some(tabs[if j < tabs.len() { j } else { tabs.len() - 1 }].id)
    }
}

/// Close `pane` in the active tab; a tab left without panes closes too.
pub open spec fn close_pane_spec(s: WorkspacesView, pane: Id) -> (WorkspacesView, Seq<Id>) {
    match current_index(s) {
        None => (s, Seq::empty()),
        Some(i) => {
            let w = s.items[i];
            match find(w.tabs, shows_pane(w.active_tab, pane)) {
                None => (s, Seq::empty()),
                Some(j) => {
                    let t = w.tabs[j];
                    match remove_pane(t.layout, pane) {
                        Some(l) => (
                            with_tab(
                                s,
                                i,
                                j,
                                TabView {
                                    layout: l,
                                    active_pane: if t.active_pane == pane {
                                        pane_ids(l)[0]
                                    } else {
                                        t.active_pane
                                    },
                                    ..t
                                },
                            ),
                            seq![pane],
                        ),
                        None => {
                            let tabs = w.tabs.remove(j);
                            (
                                with_workspace(
                                    s,
                                    i,
                                    WorkspaceView { tabs, active_tab: tab_after_close(tabs, j), ..w },
                                ),
                                seq![pane],
                            )
                        },
                    }
                },
            }
        },
    }
}

/// Close tab `id` of the active workspace, returning its panes.
pub open spec fn close_tab_spec(s: WorkspacesView, id: Id) -> (WorkspacesView, Seq<Id>) {
    match current_index(s) {
        None => (s, Seq::empty()),
        Some(i) => {
            let w = s.items[i];
            match find(w.tabs, |t: TabView| t.id == id) {
                None => (s, Seq::empty()),
                Some(j) => {
                    let tabs = w.tabs.remove(j);
                    let active_tab = if w.active_tab == Some(id) {
                        tab_after_close(tabs, j)
                    } else {
                        w.active_tab
                    };
                    (
                        with_workspace(s, i, WorkspaceView { tabs, active_tab, ..w }),
                        pane_ids(w.tabs[j].layout),
                    )
                },
            }
        },
    }
}

/// Close workspace `id`, returning the panes of all its tabs.
pub open spec fn close_workspace_spec(s: WorkspacesView, id: Id) -> (WorkspacesView, Seq<Id>) {
    match find(s.items, |w: WorkspaceView| w.id == id) {
        None => (s, Seq::empty()),
        Some(i) => {
            let items = s.items.remove(i);
            let active = if s.active == Some(id) {
                if items.len() == 0 {
                    None
                } else {
                    Some(items[if i < items.len() { i } else { items.len() - 1 }].id)
                }
            } else {
                s.active
            };
            (WorkspacesView { items, active, next: s.next }, tabs_pane_ids(s.items[i].tabs))
        },
    }
}

pub open spec fn holds_pane(pane: Id) -> spec_fn(TabView) -> bool {
    |t: TabView| pane_ids(t.layout).contains(pane)
}

/// The workspace and tab that own a live pane.
pub open spec fn pane_location_spec(s: WorkspacesView, pane: Id) -> Option<(Id, Id)> {
    match find(s.items, |w: WorkspaceView| find(w.tabs, holds_pane(pane)) is Some) {
        None => None,
        Some(i) => {
            let w = s.items[i];
            Some((w.id, w.tabs[find(w.tabs, holds_pane(pane))->0].id))
        },
    }
}

pub open spec fn differs(target: Id) -> spec_fn(Id) -> bool {
    |x: Id| x != target
}

/// Removing a pane keeps every other pane, in order.
pub proof fn lemma_remove_pane_ids(l: LayoutView, target: Id)
    ensures
        match remove_pane(l, target) {
            Some(r) => pane_ids(r) == pane_ids(l).filter(differs(target)) && pane_ids(r).len() >= 1,
            None => pane_ids(l).filter(differs(target)).len() == 0,
        },
    decreases l,
{
    reveal_with_fuel(Seq::<_>::filter, 2);
    match l {
        LayoutView::Pane(id, _) => {
            assert(seq![id].drop_last() =~= Seq::<Id>::empty());
            if id != target {
                assert(pane_ids(l).filter(differs(target)) =~= seq![id]);
            }
        },
        LayoutView::Split(_, first, second) => {
            lemma_remove_pane_ids(*first, target);
            lemma_remove_pane_ids(*second, target);
            Seq::filter_distributes_over_add(pane_ids(*first), pane_ids(*second), differs(target));
            lemma_pane_ids_len(*first);
            match (remove_pane(*first, target), remove_pane(*second, target)) {
                (Some(f), Some(s)) => {},
                (Some(f), None) => {
                    assert(pane_ids(*second).filter(differs(target)) =~= Seq::<Id>::empty());
                    assert(pane_ids(l).filter(differs(target)) =~= pane_ids(f));
                },
                (None, Some(s)) => {
                    assert(pane_ids(*first).filter(differs(target)) =~= Seq::<Id>::empty());
                    assert(pane_ids(l).filter(differs(target)) =~= pane_ids(s));
                },
                (None, None) => {},
            }
        },
    }
}

pub proof fn lemma_sum_element(s: Seq<nat>, i: int)
    requires
        0 <= i < s.len(),
    ensures
        s[i] <= sum(s),
{
    lemma_sum_update(s, i, 0);
}

/// A tab's panes are part of the total.
proof fn lemma_tab_le_total(s: WorkspacesView, i: int, j: int)
    requires
        0 <= i < s.items.len(),
        0 <= j < s.items[i].tabs.len(),
    ensures
        pane_ids(s.items[i].tabs[j].layout).len() <= total_panes(s.items),
{
    lemma_sum_element(tab_counts(s.items[i].tabs), j);
    lemma_sum_element(workspace_counts(s.items), i);
}

/// Changing only which pane is active keeps the state invariant.
proof fn lemma_with_tab_wf(s: WorkspacesView, i: int, j: int, t: TabView)
    requires
        wf(s),
        0 <= i < s.items.len(),
        0 <= j < s.items[i].tabs.len(),
        pane_ids(t.layout).len() <= pane_ids(s.items[i].tabs[j].layout).len() || total_panes(s.items) < MAX_PANES
            && pane_ids(t.layout).len() == pane_ids(s.items[i].tabs[j].layout).len() + 1,
    ensures
        wf(with_tab(s, i, j, t)),
{
    lemma_with_tab_total(s, i, j, t);
    let r = with_tab(s, i, j, t);
    assert forall|k: int| 0 <= k < r.items.len() implies (#[trigger] r.items[k]).next_tab <= r.next by {
        if k != i {
            assert(r.items[k] == s.items[k]);
        } else {
            assert(r.items[k].next_tab == s.items[k].next_tab);
        }
    }
}

pub proof fn lemma_activate_wf(s: WorkspacesView, workspace: Id, tab: Option<Id>)
    requires
        wf(s),
    ensures
        wf(activate_spec(s, workspace, tab)),
        total_panes(activate_spec(s, workspace, tab).items) == total_panes(s.items),
{
    match find(s.items, |w: WorkspaceView| w.id == workspace) {
        None => {},
        Some(i) => {
            lemma_find_result(s.items, |w: WorkspaceView| w.id == workspace, 0);
            let r = activate_spec(s, workspace, tab);
            lemma_workspace_counts_update(s.items, i, r.items[i]);
            assert forall|k: int| 0 <= k < r.items.len() implies (#[trigger] r.items[k]).next_tab
                <= r.next by {
                if k != i {
                    assert(r.items[k] == s.items[k]);
                }
            }
        },
    }
}

pub proof fn lemma_focus_wf(s: WorkspacesView, pane: Id)
    requires
        wf(s),
    ensures
        wf(focus_spec(s, pane)),
        total_panes(focus_spec(s, pane).items) == total_panes(s.items),
{
    match current_index(s) {
        None => {},
        Some(i) => {
            lemma_find_result(s.items, is_current(s.active), 0);
            match find(s.items[i].tabs, shows_pane(s.items[i].active_tab, pane)) {
                None => {},
                Some(j) => {
                    lemma_find_result(s.items[i].tabs, shows_pane(s.items[i].active_tab, pane), 0);
                    let t = TabView { active_pane: pane, ..s.items[i].tabs[j] };
                    lemma_with_tab_wf(s, i, j, t);
                    lemma_with_tab_total(s, i, j, t);
                },
            }
        },
    }
}

pub proof fn lemma_navigate_wf(s: WorkspacesView, direction: nat)
    requires
        wf(s),
    ensures
        wf(navigate_spec(s, direction)),
        total_panes(navigate_spec(s, direction).items) == total_panes(s.items),
{
    if direction == 0 || direction == 1 {
        match current_index(s) {
            None => {},
            Some(i) => {
                let w = s.items[i];
                match find(w.tabs, is_active_tab(w.active_tab)) {
                    None => {},
                    Some(j) => {
                        lemma_activate_wf(s, w.id, Some(w.tabs[neighbour(direction, j, w.tabs.len() as int)].id));
                    },
                }
            },
        }
    } else if direction == 2 || direction == 3 {
        match tab_index(s) {
            None => {},
            Some((i, j)) => {
                let t = s.items[i].tabs[j];
                let ids = pane_ids(t.layout);
                match find(ids, |id: Id| id == t.active_pane) {
                    None => {},
                    Some(k) => lemma_focus_wf(s, ids[neighbour(direction, k, ids.len() as int)]),
                }
            },
        }
    } else if direction == 4 || direction == 5 {
        match current_index(s) {
            None => {},
            Some(i) => lemma_activate_wf(s, s.items[neighbour(direction, i, s.items.len() as int)].id, None),
        }
    }
}

fn neighbour_of(direction: usize, position: usize, len: usize) -> (r: usize)
    requires
        position < len,
    ensures
        r == neighbour(direction as nat, position as int, len as int),
        r < len,
{
    proof {
        vstd::arithmetic::div_mod::lemma_small_mod(position as nat, len as nat);
        if position + 1 < len {
            vstd::arithmetic::div_mod::lemma_small_mod((position + 1) as nat, len as nat);
        } else {
            vstd::arithmetic::div_mod::lemma_mod_self_0(len as int);
        }
        if position >= 1 {
            vstd::arithmetic::div_mod::lemma_mod_add_multiples_vanish(position - 1, len as int);
            vstd::arithmetic::div_mod::lemma_small_mod((position - 1) as nat, len as nat);
        } else {
            vstd::arithmetic::div_mod::lemma_small_mod((len - 1) as nat, len as nat);
        }
    }
    if direction % 2 == 0 {
        if position == 0 {
            len - 1
        } else {
            position - 1
        }
    } else {
        if position + 1 == len {
            0
        } else {
            position + 1
        }
    }
}

/// Index of the first occurrence of `x`.
fn position_of(v: &Vec<Id>, x: Id) -> (r: Option<usize>)
    ensures
        match r {
            Some(k) => find(v@, |id: Id| id == x) == Some(k as int) && k < v@.len(),
            None => find(v@, |id: Id| id == x) is None,
        },
{
    let ghost p = |id: Id| id == x;
    let mut k: usize = 0;
    while k < v.len()
        invariant
            k <= v@.len(),
            p == (|id: Id| id == x),
            find(v@, p) == find_from(v@, p, k as int),
        decreases v@.len() - k,
    {
        if v[k] == x {
            assert(p(v@[k as int]));
            return Some(k);
        }
        proof {
            lemma_find_from_step(v@, p, k as int);
        }
        k += 1;
    }
    None
}

fn option_is(value: Option<Id>, id: Id) -> (r: bool)
    ensures
        r == (value == Some(id)),
{
    match value {
        Some(v) => v == id,
        None => false,
    }
}

impl Default for Workspaces {
    fn default() -> (r: Self)
        ensures
            r@.items.len() == 0 && r@.active is None && r@.next == 0,
            sound(r@),
    {
        let r = Workspaces { items: Vec::new(), active: None, next: 0 };
        proof {
            reveal(structured);
            assert(workspace_counts(r@.items) =~= Seq::<nat>::empty());
        }
        r
    }
}

impl Workspaces {
    fn id(&mut self) -> (r: Id)
        requires
            old(self).next < u64::MAX,
        ensures
            r == old(self)@.next + 1,
            final(self)@ == (WorkspacesView { next: r, ..old(self)@ }),
    {
        self.next += 1;
        proof {
            assert(self@ =~= (WorkspacesView { next: self.next, ..old(self)@ }));
        }
        self.next
    }

    fn current_position(&self) -> (r: Option<usize>)
        ensures
            match r {
                Some(i) => current_index(self@) == Some(i as int) && i < self.items@.len(),
                None => current_index(self@) is None,
            },
    {
        let ghost p = is_current(self.active);
        let mut i: usize = 0;
        while i < self.items.len()
            invariant
                i <= self.items@.len(),
                p == is_current(self.active),
                find(self@.items, p) == find_from(self@.items, p, i as int),
            decreases self.items@.len() - i,
        {
            if option_is(self.active, self.items[i].id) {
                assert(p(self@.items[i as int]));
                return Some(i);
            }
            proof {
                lemma_find_from_step(self@.items, p, i as int);
            }
            i += 1;
        }
        None
    }

    fn active_tab_position(w: &Workspace) -> (r: Option<usize>)
        ensures
            match r {
                Some(j) => find(w@.tabs, is_active_tab(w@.active_tab)) == Some(j as int) && j < w.tabs@.len(),
                None => find(w@.tabs, is_active_tab(w@.active_tab)) is None,
            },
    {
        let ghost p = is_active_tab(w@.active_tab);
        let mut j: usize = 0;
        while j < w.tabs.len()
            invariant
                j <= w.tabs@.len(),
                p == is_active_tab(w@.active_tab),
                find(w@.tabs, p) == find_from(w@.tabs, p, j as int),
            decreases w.tabs@.len() - j,
        {
            if option_is(w.active_tab, w.tabs[j].id) {
                assert(p(w@.tabs[j as int]));
                return Some(j);
            }
            proof {
                lemma_find_from_step(w@.tabs, p, j as int);
            }
            j += 1;
        }
        None
    }

    fn tab_position(&self) -> (r: Option<(usize, usize)>)
        ensures
            match r {
                Some((i, j)) => tab_index(self@) == Some((i as int, j as int)) && i < self.items@.len() && j
                    < self.items@[i as int].tabs@.len(),
                None => tab_index(self@) is None,
            },
    {
        match self.current_position() {
            None => None,
            Some(i) => match Self::active_tab_position(&self.items[i]) {
                None => None,
                Some(j) => Some((i, j)),
            },
        }
    }

    pub fn pane_count(&self) -> (r: usize)
        requires
            wf(self@),
        ensures
            r == total_panes(self@.items),
    {
        let ghost counts = workspace_counts(self@.items);
        let mut total: usize = 0;
        let mut i: usize = 0;
        while i < self.items.len()
            invariant
                i <= self.items@.len(),
                counts == workspace_counts(self@.items),
                total_panes(self@.items) <= MAX_PANES,
                total == sum(counts.take(i as int)),
            decreases self.items@.len() - i,
        {
            let w = &self.items[i];
            let ghost tc = tab_counts(w@.tabs);
            proof {
                lemma_sum_prefix(counts, i as int);
                lemma_sum_prefix(counts, (i + 1) as int);
            }
            let mut j: usize = 0;
            let mut sub: usize = 0;
            while j < w.tabs.len()
                invariant
                    j <= w.tabs@.len(),
                    tc == tab_counts(w@.tabs),
                    sub == sum(tc.take(j as int)),
                    total + sum(tc) <= MAX_PANES,
                decreases w.tabs@.len() - j,
            {
                proof {
                    lemma_sum_prefix(tc, j as int);
                    lemma_sum_prefix(tc, (j + 1) as int);
                }
                sub += w.tabs[j].layout.panes().len();
                j += 1;
            }
            proof {
                assert(tc.take(j as int) =~= tc);
            }
            total += sub;
            i += 1;
        }
        proof {
            assert(counts.take(i as int) =~= counts);
        }
        total
    }

    pub fn current(&self) -> (r: Option<&Workspace>)
        ensures
            match r {
                Some(w) => current_index(self@) matches Some(i) && w@ == self@.items[i],
                None => current_index(self@) is None,
            },
    {
        match self.current_position() {
            Some(i) => Some(&self.items[i]),
            None => None,
        }
    }

    pub fn tab(&self) -> (r: Option<&Tab>)
        ensures
            match r {
                Some(t) => tab_index(self@) matches Some((i, j)) && t@ == self@.items[i].tabs[j],
                None => tab_index(self@) is None,
            },
    {
        match self.tab_position() {
            Some((i, j)) => Some(&self.items[i].tabs[j]),
            None => None,
        }
    }

    fn workspace_position(&self, workspace: Id) -> (r: Option<usize>)
        ensures
            match r {
                Some(i) => find(self@.items, |w: WorkspaceView| w.id == workspace) == Some(i as int) && i
                    < self.items@.len(),
                None => find(self@.items, |w: WorkspaceView| w.id == workspace) is None,
            },
    {
        let ghost p = |w: WorkspaceView| w.id == workspace;
        let mut i: usize = 0;
        while i < self.items.len()
            invariant
                i <= self.items@.len(),
                p == (|w: WorkspaceView| w.id == workspace),
                find(self@.items, p) == find_from(self@.items, p, i as int),
            decreases self.items@.len() - i,
        {
            if self.items[i].id == workspace {
                assert(p(self@.items[i as int]));
                return Some(i);
            }
            proof {
                lemma_find_from_step(self@.items, p, i as int);
            }
            i += 1;
        }
        None
    }

    fn tab_with_id(w: &Workspace, id: Id) -> (r: Option<usize>)
        ensures
            match r {
                Some(j) => find(w@.tabs, |t: TabView| t.id == id) == Some(j as int) && j < w.tabs@.len()
                    && has_tab(w@, id),
                None => find(w@.tabs, |t: TabView| t.id == id) is None && !has_tab(w@, id),
            },
    {
        let ghost p = |t: TabView| t.id == id;
        let mut j: usize = 0;
        while j < w.tabs.len()
            invariant
                j <= w.tabs@.len(),
                p == (|t: TabView| t.id == id),
                find(w@.tabs, p) == find_from(w@.tabs, p, j as int),
                forall|k: int| 0 <= k < j ==> (#[trigger] w@.tabs[k]).id != id,
            decreases w.tabs@.len() - j,
        {
            if w.tabs[j].id == id {
                assert(p(w@.tabs[j as int]));
                assert(w@.tabs[j as int].id == id);
                return Some(j);
            }
            proof {
                lemma_find_from_step(w@.tabs, p, j as int);
            }
            j += 1;
        }
        None
    }

    pub fn activate(&mut self, workspace: Id, tab: Option<Id>)
        ensures
            final(self)@ == activate_spec(old(self)@, workspace, tab),
            wf(old(self)@) ==> wf(final(self)@),
            sound(old(self)@) ==> sound(final(self)@),
    {
        proof {
            if structured(self@) {
                law_activate_keeps_structure(self@, workspace, tab);
            }
        }
        proof {
            if wf(old(self)@) {
                lemma_activate_wf(old(self)@, workspace, tab);
            }
        }
        let i = match self.workspace_position(workspace) {
            Some(i) => i,
            None => return,
        };
        self.active = Some(workspace);
        if let Some(id) = tab {
            if let Some(_) = Self::tab_with_id(&self.items[i], id) {
                self.items[i].active_tab = Some(id);
            }
        }
        proof {
            let spec_result = activate_spec(old(self)@, workspace, tab);
            assert(self@.items =~= spec_result.items);
            assert(self@ =~= spec_result);
        }
    }

    fn tab_showing(w: &Workspace, pane: Id) -> (r: Option<usize>)
        ensures
            match r {
                Some(j) => find(w@.tabs, shows_pane(w@.active_tab, pane)) == Some(j as int) && j
                    < w.tabs@.len(),
                None => find(w@.tabs, shows_pane(w@.active_tab, pane)) is None,
            },
    {
        let ghost p = shows_pane(w@.active_tab, pane);
        let mut j: usize = 0;
        while j < w.tabs.len()
            invariant
                j <= w.tabs@.len(),
                p == shows_pane(w@.active_tab, pane),
                find(w@.tabs, p) == find_from(w@.tabs, p, j as int),
            decreases w.tabs@.len() - j,
        {
            if option_is(w.active_tab, w.tabs[j].id) && w.tabs[j].layout.contains(pane) {
                assert(p(w@.tabs[j as int]));
                return Some(j);
            }
            proof {
                lemma_find_from_step(w@.tabs, p, j as int);
            }
            j += 1;
        }
        None
    }

    pub fn focus(&mut self, pane: Id)
        ensures
            final(self)@ == focus_spec(old(self)@, pane),
            wf(old(self)@) ==> wf(final(self)@),
            sound(old(self)@) ==> sound(final(self)@),
    {
        proof {
            if structured(self@) {
                law_focus_keeps_structure(self@, pane);
            }
        }
        let i = match self.current_position() {
            Some(i) => i,
            None => return,
        };
        let j = match Self::tab_showing(&self.items[i], pane) {
            Some(j) => j,
            None => return,
        };
        self.items[i].tabs[j].active_pane = pane;
        proof {
            let r = focus_spec(old(self)@, pane);
            assert(self@.items[i as int].tabs =~= r.items[i as int].tabs);
            assert(self@.items =~= r.items);
            assert(self@ =~= r);
            if wf(old(self)@) {
                lemma_focus_wf(old(self)@, pane);
            }
        }
    }

    /// Cycle tabs, panes or workspaces without creating or closing resources.
    pub fn navigate(&mut self, index: usize)
        ensures
            final(self)@ == navigate_spec(old(self)@, index as nat),
            wf(old(self)@) ==> wf(final(self)@),
            sound(old(self)@) ==> sound(final(self)@),
    {
        proof {
            if structured(self@) {
                law_navigate_keeps_structure(self@, index as nat);
            }
        }
        proof {
            if wf(old(self)@) {
                lemma_navigate_wf(old(self)@, index as nat);
            }
        }
        if index == 0 || index == 1 {
            if let Some(i) = self.current_position() {
                if let Some(j) = Self::active_tab_position(&self.items[i]) {
                    let len = self.items[i].tabs.len();
                    let n = neighbour_of(index, j, len);
                    let target = self.items[i].tabs[n].id;
                    let workspace = self.items[i].id;
                    assert(self@.items[i as int].tabs[n as int].id == target);
                    assert(navigate_spec(old(self)@, index as nat) == activate_spec(
                        old(self)@,
                        workspace,
                        Some(target),
                    ));
                    self.activate(workspace, Some(target));
                }
            }
        } else if index == 2 || index == 3 {
            if let Some((i, j)) = self.tab_position() {
                let panes = self.items[i].tabs[j].layout.panes();
                let active = self.items[i].tabs[j].active_pane;
                match position_of(&panes, active) {
                    Some(k) => {
                        let n = neighbour_of(index, k, panes.len());
                        self.focus(panes[n]);
                    },
                    None => {},
                }
            }
        } else if index == 4 || index == 5 {
            if let Some(i) = self.current_position() {
                let n = neighbour_of(index, i, self.items.len());
                let target = self.items[n].id;
                assert(self@.items[n as int].id == target);
                self.activate(target, None);
            }
        }
    }

    pub fn add_tab(&mut self) -> (r: Result<Id, &'static str>)
        requires
            wf(old(self)@),
            can_allocate(old(self)@, 2),
        ensures
            (final(self)@, r) == add_tab_spec(old(self)@),
            wf(final(self)@),
            sound(old(self)@) ==> sound(final(self)@),
    {
        proof {
            if structured(self@) {
                law_add_tab_keeps_structure(self@);
            }
        }
        if self.current_position().is_none() {
            return Err("Open a workspace first");
        }
        if self.pane_count() >= MAX_PANES {
            return Err("Terminal limit reached (64)");
        }
        let id = self.id();
        let pane = self.id();
        let i = self.current_position().unwrap();
        proof {
            assert(self@.items == old(self)@.items);
            assert(self@.items[i as int].next_tab <= old(self)@.next);
        }
        self.items[i].next_tab += 1;
        let mut title = "Terminal ".to_owned();
        crate::text::push_decimal_str(&mut title, self.items[i].next_tab);
        self.items[i].tabs.push(
            Tab { id, title, layout: Layout::Pane { id: pane, kind: PaneKind::Terminal }, active_pane: pane },
        );
        self.items[i].active_tab = Some(id);
        proof {
            let (r, _) = add_tab_spec(old(self)@);
            let w = old(self)@.items[i as int];
            assert(self@.items[i as int].tabs =~= new_tab(w, id, pane).tabs);
            assert(self@.items =~= r.items);
            assert(self@ =~= r);
            assert(tab_counts(new_tab(w, id, pane).tabs) =~= tab_counts(w.tabs).push(1));
            lemma_sum_push(tab_counts(w.tabs), 1);
            lemma_workspace_counts_update(old(self)@.items, i as int, new_tab(w, id, pane));
        }
        Ok(pane)
    }

    pub fn add_workspace(&mut self, root: String) -> (r: Result<Id, &'static str>)
        requires
            wf(old(self)@),
            can_allocate(old(self)@, 3),
        ensures
            (final(self)@, r) == add_workspace_spec(old(self)@, root@),
            wf(final(self)@),
            sound(old(self)@) ==> sound(final(self)@),
    {
        proof {
            if structured(self@) {
                law_add_workspace_keeps_structure(self@, root@);
            }
        }
        let ghost p = same_root(root@);
        let key = root_parts(root.as_str());
        let mut k: usize = 0;
        while k < self.items.len()
            invariant
                k <= self.items@.len(),
                self@ == old(self)@,
                wf(self@),
                can_allocate(self@, 3),
                p == same_root(root@),
                parts_view(key@) == root_components(root@),
                structured(old(self)@) ==> structured(add_workspace_spec(old(self)@, root@).0),
                find(self@.items, p) == find_from(self@.items, p, k as int),
            decreases self.items@.len() - k,
        {
            if same_parts(&root_parts(self.items[k].root.as_str()), &key) {
                assert(p(self@.items[k as int]));
                let id = self.items[k].id;
                self.active = Some(id);
                proof {
                    assert(self@ =~= add_workspace_spec(old(self)@, root@).0);
                }
                return Ok(id);
            }
            proof {
                lemma_find_from_step(self@.items, p, k as int);
            }
            k += 1;
        }
        if self.items.len() >= MAX_WORKSPACES {
            return Err("Workspace limit reached (16)");
        }
        if self.pane_count() >= MAX_PANES {
            return Err("Pane limit reached (64)");
        }
        let id = self.id();
        let ghost root_view = root@;
        self.items.push(Workspace { id, root, tabs: Vec::new(), active_tab: None, next_tab: 0 });
        self.active = Some(id);
        proof {
            let opened = WorkspacesView {
                items: old(self)@.items.push(
                    WorkspaceView { id, root: root_view, tabs: Seq::empty(), active_tab: None, next_tab: 0 },
                ),
                active: Some(id),
                next: id,
            };
            assert(self@.items[self@.items.len() - 1].tabs =~= Seq::<TabView>::empty());
            assert(self@.items =~= opened.items);
            assert(self@ =~= opened);
            assert(workspace_counts(opened.items) =~= workspace_counts(old(self)@.items).push(0));
            assert(tab_counts(Seq::<TabView>::empty()) =~= Seq::<nat>::empty());
            lemma_sum_push(workspace_counts(old(self)@.items), 0);
            assert forall|k: int| 0 <= k < self@.items.len() implies (#[trigger] self@.items[k]).next_tab
                <= self@.next by {
                if k < old(self)@.items.len() {
                    assert(self@.items[k] == old(self)@.items[k]);
                }
            }
        }
        match self.add_tab() {
            Ok(_) => Ok(id),
            Err(e) => Err(e),
        }
    }

    pub fn rename_tab(&mut self, id: Id, title: String) -> (r: Result<(), &'static str>)
        requires
            wf(old(self)@),
        ensures
            (final(self)@, r) == rename_tab_spec(old(self)@, id, title@),
            wf(final(self)@),
            sound(old(self)@) ==> sound(final(self)@),
    {
        proof {
            if structured(self@) {
                law_rename_keeps_structure(self@, id, title@);
            }
        }
        let chars = chars_of(title.as_str());
        let name = crate::text::trim_chars(&chars);
        if name.len() == 0 {
            return Err("Tab name cannot be empty");
        }
        if name.len() > 80 {
            return Err("Tab name is too long (80 characters maximum)");
        }
        let i = match self.current_position() {
            Some(i) => i,
            None => return Err("Terminal tab not found"),
        };
        let j = match Self::tab_with_id(&self.items[i], id) {
            Some(j) => j,
            None => return Err("Terminal tab not found"),
        };
        self.items[i].tabs[j].title = crate::text::string_from_chars(&name);
        proof {
            let (r, _) = rename_tab_spec(old(self)@, id, title@);
            assert(self@.items[i as int].tabs =~= r.items[i as int].tabs);
            assert(self@.items =~= r.items);
            assert(self@ =~= r);
            lemma_with_tab_total(old(self)@, i as int, j as int, r.items[i as int].tabs[j as int]);
        }
        Ok(())
    }

    fn split_active(&mut self, i: usize, j: usize, kind: PaneKind, axis: Axis) -> (r: Result<Id, &'static str>)
        requires
            wf(old(self)@),
            can_allocate(old(self)@, 1),
            i < old(self)@.items.len(),
            j < old(self)@.items[i as int].tabs.len(),
            total_panes(old(self)@.items) < MAX_PANES,
        ensures
            (final(self)@, r) == split_at(old(self)@, i as int, j as int, kind@, axis),
            wf(final(self)@),
    {
        let ghost kind_view = kind@;
        let new = self.id();
        let active = self.items[i].tabs[j].active_pane;
        proof {
            lemma_tab_le_total(old(self)@, i as int, j as int);
            assert(self@.items =~= old(self)@.items);
        }
        if !self.items[i].tabs[j].layout.split(active, new, kind, axis, 0) {
            proof {
                let (r, _) = split_at(old(self)@, i as int, j as int, kind_view, axis);
                assert(self@.items[i as int].tabs =~= r.items[i as int].tabs);
                assert(self@.items =~= r.items);
                assert(self@ =~= r);
                assert forall|k: int| 0 <= k < self@.items.len() implies (#[trigger] self@.items[k]).next_tab
                    <= self@.next by {
                    assert(self@.items[k].next_tab == old(self)@.items[k].next_tab);
                }
            }
            return Err("Split depth limit reached (8)");
        }
        self.items[i].tabs[j].active_pane = new;
        proof {
            let (r, _) = split_at(old(self)@, i as int, j as int, kind_view, axis);
            let counted = WorkspacesView { next: new, ..old(self)@ };
            let t = old(self)@.items[i as int].tabs[j as int];
            let l = split_layout(t.layout, t.active_pane, new, kind_view, axis, 0)->0;
            assert(self@.items[i as int].tabs =~= r.items[i as int].tabs);
            assert(self@.items =~= r.items);
            assert(self@ =~= r);
            lemma_split_panes(t.layout, t.active_pane, new, kind_view, axis, 0);
            lemma_pane_ids_len(t.layout);
            lemma_pane_ids_len(l);
            assert(wf(counted)) by {
                assert forall|k: int| 0 <= k < counted.items.len() implies (#[trigger] counted.items[k]).next_tab
                    <= counted.next by {
                }
            }
            lemma_with_tab_wf(counted, i as int, j as int, TabView { layout: l, active_pane: new, ..t });
        }
        Ok(new)
    }

    pub fn split(&mut self, axis: Axis) -> (r: Result<Id, &'static str>)
        requires
            wf(old(self)@),
            can_allocate(old(self)@, 1),
        ensures
            (final(self)@, r) == split_spec(old(self)@, axis),
            wf(final(self)@),
            sound(old(self)@) ==> sound(final(self)@),
    {
        proof {
            if structured(self@) {
                law_split_keeps_structure(self@, axis);
            }
        }
        if self.pane_count() >= MAX_PANES {
            return Err("Pane limit reached (64)");
        }
        let (i, j) = match self.tab_position() {
            Some(p) => p,
            None => return Err("Open a tab first"),
        };
        self.split_active(i, j, PaneKind::Terminal, axis)
    }

    /// The pane of the active tab that already shows this file, if any.
    fn file_pane(&self, path: &str) -> (r: Option<Id>)
        ensures
            r == file_pane_spec(self@, path@),
    {
        let (i, j) = match self.tab_position() {
            Some(p) => p,
            None => return None,
        };
        let items = self.items[i].tabs[j].layout.panes_with_kinds();
        let ghost ps = panes(self@.items[i as int].tabs[j as int].layout);
        let ghost p = is_file(path@);
        let mut k: usize = 0;
        while k < items.len()
            invariant
                k <= items@.len(),
                tab_index(self@) == Some((i as int, j as int)),
                i < self@.items.len(),
                j < self@.items[i as int].tabs.len(),
                ps == panes(self@.items[i as int].tabs[j as int].layout),
                items@.len() == ps.len(),
                forall|x: int| 0 <= x < items@.len() ==> (#[trigger] items@[x].0, items@[x].1@) == ps[x],
                p == is_file(path@),
                find(ps, p) == find_from(ps, p, k as int),
            decreases items@.len() - k,
        {
            let hit = match &items[k].1 {
                PaneKind::File { path: found } => str_eq(found.as_str(), path),
                PaneKind::Terminal => false,
            };
            assert((items@[k as int].0, items@[k as int].1@) == ps[k as int]);
            if hit {
                assert(p(ps[k as int]));
                return Some(items[k].0);
            }
            proof {
                lemma_find_from_step(ps, p, k as int);
            }
            k += 1;
        }
        None
    }

    /// Open a read-only file viewer pane beside the active pane, or focus the
    /// pane already showing the same file. The path is a normalized workspace
    /// relative path; the file service re-validates it before every read.
    pub fn open_file_pane(&mut self, path: &str) -> (r: Result<Id, &'static str>)
        requires
            wf(old(self)@),
            can_allocate(old(self)@, 1),
        ensures
            (final(self)@, r) == open_file_pane_spec(old(self)@, path),
            wf(final(self)@),
            sound(old(self)@) ==> sound(final(self)@),
    {
        proof {
            if structured(self@) {
                law_open_file_pane_keeps_structure(self@, path);
            }
        }
        let validated = match validate_relative_path(path) {
            Ok(p) => p,
            Err(e) => return Err(e),
        };
        if let Some(existing) = self.file_pane(validated.as_str()) {
            self.focus(existing);
            return Ok(existing);
        }
        if self.pane_count() >= MAX_PANES {
            return Err("Pane limit reached (64)");
        }
        let (i, j) = match self.tab_position() {
            Some(p) => p,
            None => return Err("Open a tab first"),
        };
        self.split_active(i, j, PaneKind::File { path: validated }, Axis::Horizontal)
    }

    pub fn close_pane(&mut self, pane: Id) -> (r: Vec<Id>)
        requires
            wf(old(self)@),
        ensures
            (final(self)@, r@) == close_pane_spec(old(self)@, pane),
            wf(final(self)@),
            sound(old(self)@) ==> sound(final(self)@),
    {
        proof {
            if structured(self@) {
                law_close_pane_keeps_structure(self@, pane);
            }
        }
        let i = match self.current_position() {
            Some(i) => i,
            None => return Vec::new(),
        };
        let j = match Self::tab_showing(&self.items[i], pane) {
            Some(j) => j,
            None => return Vec::new(),
        };
        let ghost s = old(self)@;
        let ghost w = s.items[i as int];
        let ghost t = w.tabs[j as int];
        proof {
            lemma_remove_pane_ids(t.layout, pane);
            pane_ids(t.layout).lemma_filter_len(differs(pane));
        }
        match self.items[i].tabs[j].layout.copy().remove(pane) {
            Some(layout) => {
                if self.items[i].tabs[j].active_pane == pane {
                    let ids = layout.panes();
                    self.items[i].tabs[j].active_pane = ids[0];
                }
                self.items[i].tabs[j].layout = layout;
                proof {
                    let (r, _) = close_pane_spec(s, pane);
                    assert(self@.items[i as int].tabs =~= r.items[i as int].tabs);
                    assert(self@.items =~= r.items);
                    assert(self@ =~= r);
                    lemma_with_tab_wf(s, i as int, j as int, r.items[i as int].tabs[j as int]);
                }
            },
            None => {
                self.items[i].tabs.remove(j);
                let len = self.items[i].tabs.len();
                let next = if len == 0 {
                    None
                } else {
                    Some(self.items[i].tabs[if j < len { j } else { len - 1 }].id)
                };
                self.items[i].active_tab = next;
                proof {
                    let (r, _) = close_pane_spec(s, pane);
                    assert(self@.items[i as int].tabs =~= r.items[i as int].tabs);
                    assert(self@.items =~= r.items);
                    assert(self@ =~= r);
                    assert(tab_counts(w.tabs.remove(j as int)) =~= tab_counts(w.tabs).remove(j as int));
                    lemma_sum_remove(tab_counts(w.tabs), j as int);
                    lemma_workspace_counts_update(s.items, i as int, r.items[i as int]);
                    assert forall|k: int| 0 <= k < r.items.len() implies (#[trigger] r.items[k]).next_tab
                        <= r.next by {
                        if k != i {
                            assert(r.items[k] == s.items[k]);
                        }
                    }
                }
            },
        }
        vec![pane]
    }

    pub fn close_tab(&mut self, id: Id) -> (r: Vec<Id>)
        requires
            wf(old(self)@),
        ensures
            (final(self)@, r@) == close_tab_spec(old(self)@, id),
            wf(final(self)@),
            sound(old(self)@) ==> sound(final(self)@),
    {
        proof {
            if structured(self@) {
                law_close_tab_keeps_structure(self@, id);
            }
        }
        let i = match self.current_position() {
            Some(i) => i,
            None => return Vec::new(),
        };
        let j = match Self::tab_with_id(&self.items[i], id) {
            Some(j) => j,
            None => return Vec::new(),
        };
        let ghost s = old(self)@;
        let ghost w = s.items[i as int];
        let removed = self.items[i].tabs.remove(j).layout.panes();
        if option_is(self.items[i].active_tab, id) {
            let len = self.items[i].tabs.len();
            let next = if len == 0 {
                None
            } else {
                Some(self.items[i].tabs[if j < len { j } else { len - 1 }].id)
            };
            self.items[i].active_tab = next;
        }
        proof {
            let (r, _) = close_tab_spec(s, id);
            assert(self@.items[i as int].tabs =~= r.items[i as int].tabs);
            assert(self@.items =~= r.items);
            assert(self@ =~= r);
            assert(tab_counts(w.tabs.remove(j as int)) =~= tab_counts(w.tabs).remove(j as int));
            lemma_sum_remove(tab_counts(w.tabs), j as int);
            lemma_workspace_counts_update(s.items, i as int, r.items[i as int]);
            assert forall|k: int| 0 <= k < r.items.len() implies (#[trigger] r.items[k]).next_tab <= r.next by {
                if k != i {
                    assert(r.items[k] == s.items[k]);
                }
            }
        }
        removed
    }

    pub fn close_workspace(&mut self, id: Id) -> (r: Vec<Id>)
        requires
            wf(old(self)@),
        ensures
            (final(self)@, r@) == close_workspace_spec(old(self)@, id),
            wf(final(self)@),
            sound(old(self)@) ==> sound(final(self)@),
    {
        proof {
            if structured(self@) {
                law_close_workspace_keeps_structure(self@, id);
            }
        }
        let i = match self.workspace_position(id) {
            Some(i) => i,
            None => return Vec::new(),
        };
        let ghost s = old(self)@;
        let mut removed: Vec<Id> = Vec::new();
        let mut k: usize = 0;
        let ghost tabs = s.items[i as int].tabs;
        assert(tabs.take(0) =~= Seq::<TabView>::empty());
        while k < self.items[i].tabs.len()
            invariant
                i < self.items@.len(),
                self@ == s,
                tabs == s.items[i as int].tabs,
                k <= tabs.len(),
                removed@ == tabs_pane_ids(tabs.take(k as int)),
            decreases tabs.len() - k,
        {
            let mut ids = self.items[i].tabs[k].layout.panes();
            removed.append(&mut ids);
            proof {
                assert(tabs.take(k + 1).drop_last() =~= tabs.take(k as int));
            }
            k += 1;
        }
        proof {
            assert(tabs.take(k as int) =~= tabs);
        }
        self.items.remove(i);
        if option_is(self.active, id) {
            let len = self.items.len();
            self.active = if len == 0 {
                None
            } else {
                Some(self.items[if i < len { i } else { len - 1 }].id)
            };
        }
        proof {
            let (r, _) = close_workspace_spec(s, id);
            assert(self@.items =~= r.items);
            assert(self@ =~= r);
            assert(workspace_counts(s.items.remove(i as int)) =~= workspace_counts(s.items).remove(i as int));
            lemma_sum_remove(workspace_counts(s.items), i as int);
            assert forall|x: int| 0 <= x < r.items.len() implies (#[trigger] r.items[x]).next_tab <= r.next by {
                if x < i {
                    assert(r.items[x] == s.items[x]);
                } else {
                    assert(r.items[x] == s.items[x + 1]);
                }
            }
        }
        removed
    }

    fn tab_containing(w: &Workspace, pane: Id) -> (r: Option<usize>)
        ensures
            match r {
                Some(j) => find(w@.tabs, holds_pane(pane)) == Some(j as int) && j < w.tabs@.len(),
                None => find(w@.tabs, holds_pane(pane)) is None,
            },
    {
        let ghost p = holds_pane(pane);
        let mut j: usize = 0;
        while j < w.tabs.len()
            invariant
                j <= w.tabs@.len(),
                p == holds_pane(pane),
                find(w@.tabs, p) == find_from(w@.tabs, p, j as int),
            decreases w.tabs@.len() - j,
        {
            if w.tabs[j].layout.contains(pane) {
                assert(p(w@.tabs[j as int]));
                return Some(j);
            }
            proof {
                lemma_find_from_step(w@.tabs, p, j as int);
            }
            j += 1;
        }
        None
    }

    /// Returns the workspace and tab that own a live pane.
    pub fn pane_location(&self, pane: Id) -> (r: Option<(Id, Id)>)
        ensures
            r == pane_location_spec(self@, pane),
    {
        let ghost p = |w: WorkspaceView| find(w.tabs, holds_pane(pane)) is Some;
        let mut i: usize = 0;
        while i < self.items.len()
            invariant
                i <= self.items@.len(),
                p == (|w: WorkspaceView| find(w.tabs, holds_pane(pane)) is Some),
                find(self@.items, p) == find_from(self@.items, p, i as int),
            decreases self.items@.len() - i,
        {
            if let Some(j) = Self::tab_containing(&self.items[i], pane) {
                assert(p(self@.items[i as int]));
                return Some((self.items[i].id, self.items[i].tabs[j].id));
            }
            proof {
                lemma_find_from_step(self@.items, p, i as int);
            }
            i += 1;
        }
        None
    }

    /// The title of the tab that owns a live pane: the pane's workspace and
    /// tab are located, then looked up by their identifiers.
    pub fn pane_title(&self, pane: Id) -> (r: Option<String>)
        ensures
            match r {
                Some(t) => pane_title_spec(self@, pane) == Some(t@),
                None => pane_title_spec(self@, pane) is None,
            },
    {
        let (workspace, tab) = match self.pane_location(pane) {
            Some(l) => l,
            None => return None,
        };
        let i = match self.workspace_position(workspace) {
            Some(i) => i,
            None => return None,
        };
        let j = match Self::tab_with_id(&self.items[i], tab) {
            Some(j) => j,
            None => return None,
        };
        assert(self@.items[i as int].tabs[j as int] == self.items[i as int].tabs[j as int]@);
        Some(self.items[i].tabs[j].title.clone())
    }
}

/// The title of the tab that owns a live pane, found through the pane's
/// location and then its workspace and tab by identifier.
pub open spec fn pane_title_spec(s: WorkspacesView, pane: Id) -> Option<Seq<char>> {
    match pane_location_spec(s, pane) {
        None => None,
        Some((workspace, tab)) => match find(s.items, |w: WorkspaceView| w.id == workspace) {
            None => None,
            Some(i) => match find(s.items[i].tabs, |t: TabView| t.id == tab) {
                None => None,
                Some(j) => Some(s.items[i].tabs[j].title),
            },
        },
    }
}

} // verus!

verus! {

/// A layout without pane `target` is left as it is by removing `target`.
pub proof fn lemma_remove_absent(l: LayoutView, target: Id)
    requires
        !pane_ids(l).contains(target),
    ensures
        remove_pane(l, target) == Some(l),
    decreases l,
{
    match l {
        LayoutView::Pane(id, _) => {
            assert(pane_ids(l)[0] == id);
        },
        LayoutView::Split(_, first, second) => {
            let a = pane_ids(*first);
            let b = pane_ids(*second);
            assert forall|i: int| 0 <= i < a.len() implies a[i] != target by {
                assert((a + b)[i] == a[i]);
            }
            assert forall|i: int| 0 <= i < b.len() implies b[i] != target by {
                assert((a + b)[a.len() + i] == b[i]);
            }
            lemma_remove_absent(*first, target);
            lemma_remove_absent(*second, target);
        },
    }
}

/// Splitting a pane off and then closing the new pane gives back the
/// layout as it was.
pub proof fn law_split_then_close_restores(l: LayoutView, target: Id, new: Id, kind: KindView, axis: Axis, depth: nat)
    requires
        !pane_ids(l).contains(new),
    ensures
        split_layout(l, target, new, kind, axis, depth) matches Some(split) ==> remove_pane(split, new) == Some(l),
    decreases l,
{
    match l {
        LayoutView::Pane(id, kept) => {
            assert(pane_ids(l)[0] == id);
            if id == target && depth < MAX_DEPTH {
                let left = LayoutView::Pane(target, kept);
                let right = LayoutView::Pane(new, kind);
                assert(remove_pane(left, new) == Some(left));
                assert(remove_pane(right, new) is None);
                assert(remove_pane(LayoutView::Split(axis, Box::new(left), Box::new(right)), new) == Some(left));
            }
        },
        LayoutView::Split(a, first, second) => {
            let x = pane_ids(*first);
            let y = pane_ids(*second);
            assert forall|i: int| 0 <= i < x.len() implies x[i] != new by {
                assert((x + y)[i] == x[i]);
            }
            assert forall|i: int| 0 <= i < y.len() implies y[i] != new by {
                assert((x + y)[x.len() + i] == y[i]);
            }
            law_split_then_close_restores(*first, target, new, kind, axis, depth + 1);
            law_split_then_close_restores(*second, target, new, kind, axis, depth + 1);
            lemma_remove_absent(*first, new);
            lemma_remove_absent(*second, new);
            match split_layout(*first, target, new, kind, axis, depth + 1) {
                Some(f) => {
                    assert(remove_pane(f, new) == Some(*first));
                    assert(remove_pane(LayoutView::Split(a, Box::new(f), second), new) == Some(
                        LayoutView::Split(a, first, second),
                    ));
                },
                None => match split_layout(*second, target, new, kind, axis, depth + 1) {
                    Some(g) => {
                        assert(remove_pane(g, new) == Some(*second));
                        assert(remove_pane(LayoutView::Split(a, first, Box::new(g)), new) == Some(
                            LayoutView::Split(a, first, second),
                        ));
                    },
                    None => {},
                },
            }
        },
    }
}

/// Splitting adds exactly one pane, the new one, right after the pane that
/// was split; every other pane keeps its place.
pub proof fn law_split_inserts_one_pane(l: LayoutView, target: Id, new: Id, kind: KindView, axis: Axis, depth: nat)
    ensures
        split_layout(l, target, new, kind, axis, depth) matches Some(r) ==> exists|i: int|
            inserted_after(panes(l), panes(r), i, target, new, kind),
{
    lemma_split_panes(l, target, new, kind, axis, depth);
}

/// Closing a pane of the active tab removes that pane only, keeps the others
/// in order, and closes the tab when it was the tab's last pane.
pub proof fn law_close_pane_keeps_other_panes(s: WorkspacesView, pane: Id)
    ensures
        ({
            let (after, closed) = close_pane_spec(s, pane);
            match current_index(s) {
                Some(i) => match find(s.items[i].tabs, shows_pane(s.items[i].active_tab, pane)) {
                    Some(j) => {
                        let before = pane_ids(s.items[i].tabs[j].layout);
                        &&& closed == seq![pane]
                        &&& before.contains(pane)
                        &&& after.items.len() == s.items.len()
                        &&& after.items[i].tabs.len() == s.items[i].tabs.len() ==> pane_ids(
                            after.items[i].tabs[j].layout,
                        ) == before.filter(differs(pane))
                        &&& after.items[i].tabs.len() != s.items[i].tabs.len() ==> before.filter(
                            differs(pane),
                        ).len() == 0 && after.items[i].tabs == s.items[i].tabs.remove(j)
                    },
                    None => after == s && closed.len() == 0,
                },
                None => after == s && closed.len() == 0,
            }
        }),
{
    match current_index(s) {
        None => {},
        Some(i) => {
            lemma_find_result(s.items, is_current(s.active), 0);
            let w = s.items[i];
            match find(w.tabs, shows_pane(w.active_tab, pane)) {
                None => {},
                Some(j) => {
                    lemma_find_result(w.tabs, shows_pane(w.active_tab, pane), 0);
                    assert(shows_pane(w.active_tab, pane)(w.tabs[j]));
                    lemma_remove_pane_ids(w.tabs[j].layout, pane);
                },
            }
        },
    }
}

/// Two states with the same workspaces, tabs, titles and layouts, whatever is
/// active.
pub open spec fn same_shape(a: WorkspacesView, b: WorkspacesView) -> bool {
    &&& a.items.len() == b.items.len()
    &&& a.next == b.next
    &&& forall|i: int|
        0 <= i < a.items.len() ==> {
            &&& (#[trigger] b.items[i]).tabs.len() == a.items[i].tabs.len()
            &&& b.items[i].id == a.items[i].id
            &&& b.items[i].root == a.items[i].root
            &&& forall|j: int|
                0 <= j < a.items[i].tabs.len() ==> (#[trigger] b.items[i].tabs[j]).layout
                    == a.items[i].tabs[j].layout && b.items[i].tabs[j].id == a.items[i].tabs[j].id
                    && b.items[i].tabs[j].title == a.items[i].tabs[j].title
        }
}

proof fn lemma_activate_same_shape(s: WorkspacesView, workspace: Id, tab: Option<Id>)
    ensures
        same_shape(s, activate_spec(s, workspace, tab)),
{
    let after = activate_spec(s, workspace, tab);
    match find(s.items, |w: WorkspaceView| w.id == workspace) {
        None => {},
        Some(i) => {
            lemma_find_result(s.items, |w: WorkspaceView| w.id == workspace, 0);
            assert forall|x: int| 0 <= x < s.items.len() implies (#[trigger] after.items[x]).tabs
                == s.items[x].tabs && after.items[x].id == s.items[x].id && after.items[x].root
                == s.items[x].root by {}
        },
    }
}

proof fn lemma_focus_same_shape(s: WorkspacesView, pane: Id)
    ensures
        same_shape(s, focus_spec(s, pane)),
{
    let after = focus_spec(s, pane);
    match current_index(s) {
        None => {},
        Some(i) => {
            lemma_find_result(s.items, is_current(s.active), 0);
            match find(s.items[i].tabs, shows_pane(s.items[i].active_tab, pane)) {
                None => {},
                Some(j) => {
                    lemma_find_result(s.items[i].tabs, shows_pane(s.items[i].active_tab, pane), 0);
                    assert forall|x: int| 0 <= x < s.items.len() implies (#[trigger] after.items[x]).tabs.len()
                        == s.items[x].tabs.len() && after.items[x].id == s.items[x].id
                        && after.items[x].root == s.items[x].root && forall|y: int|
                        0 <= y < s.items[x].tabs.len() ==> (#[trigger] after.items[x].tabs[y]).layout
                            == s.items[x].tabs[y].layout && after.items[x].tabs[y].id
                            == s.items[x].tabs[y].id && after.items[x].tabs[y].title
                            == s.items[x].tabs[y].title by {
                        if x == i {
                            assert forall|y: int| 0 <= y < s.items[x].tabs.len() implies (
                            #[trigger] after.items[x].tabs[y]).layout == s.items[x].tabs[y].layout
                                && after.items[x].tabs[y].id == s.items[x].tabs[y].id
                                && after.items[x].tabs[y].title == s.items[x].tabs[y].title by {}
                        }
                    }
                },
            }
        },
    }
}

/// Navigation moves focus between existing tabs, panes and workspaces; it
/// never creates, closes, renames or reshapes anything, so the number of
/// panes stays the same.
pub proof fn law_navigation_keeps_layouts(s: WorkspacesView, direction: nat)
    ensures
        same_shape(s, navigate_spec(s, direction)),
        wf(s) ==> total_panes(navigate_spec(s, direction).items) == total_panes(s.items),
{
    if wf(s) {
        lemma_navigate_wf(s, direction);
    }
    if direction == 0 || direction == 1 {
        match current_index(s) {
            None => {},
            Some(i) => {
                let w = s.items[i];
                match find(w.tabs, is_active_tab(w.active_tab)) {
                    None => {},
                    Some(j) => {
                        lemma_activate_same_shape(
                            s,
                            w.id,
                            Some(w.tabs[neighbour(direction, j, w.tabs.len() as int)].id),
                        );
                    },
                }
            },
        }
    } else if direction == 2 || direction == 3 {
        match tab_index(s) {
            None => {},
            Some((i, j)) => {
                let t = s.items[i].tabs[j];
                let ids = pane_ids(t.layout);
                match find(ids, |id: Id| id == t.active_pane) {
                    None => {},
                    Some(k) => {
                        lemma_focus_same_shape(s, ids[neighbour(direction, k, ids.len() as int)]);
                    },
                }
            },
        }
    } else if direction == 4 || direction == 5 {
        match current_index(s) {
            None => {},
            Some(i) => {
                lemma_activate_same_shape(s, s.items[neighbour(direction, i, s.items.len() as int)].id, None);
            },
        }
    }
}

/// A split refused at a limit leaves every layout and active pane as it was.
pub proof fn law_refused_split_keeps_layouts(s: WorkspacesView, axis: Axis)
    ensures
        ({
            let (after, result) = split_spec(s, axis);
            result is Err ==> after.items == s.items && after.active == s.active
        }),
{
    let (after, result) = split_spec(s, axis);
    if result is Err {
        assert(after.items =~= s.items);
    }
}

/// Opening a workspace for a root that is already open, written the same
/// way or with other separators and `.` parts, activates that workspace
/// again instead of adding another.
pub proof fn law_reopening_a_root(s: WorkspacesView, root: Seq<char>, again: Seq<char>)
    requires
        root_components(again) == root_components(root),
    ensures
        ({
            let (first, r1) = add_workspace_spec(s, root);
            let (second, r2) = add_workspace_spec(first, again);
            r1 is Ok ==> r2 == r1 && second.items == first.items && second.active == Some(r1->Ok_0)
        }),
{
    let p = same_root(root);
    assert(same_root(again) =~= p);
    let (first, r1) = add_workspace_spec(s, root);
    lemma_find_result(s.items, p, 0);
    match find(s.items, p) {
        Some(k) => {
            assert(first.items == s.items);
            lemma_find_result(first.items, p, 0);
        },
        None => {
            if s.items.len() < MAX_WORKSPACES && total_panes(s.items) < MAX_PANES {
                let id = (s.next + 1) as u64;
                let opened = WorkspacesView {
                    items: s.items.push(
                        WorkspaceView { id, root, tabs: Seq::empty(), active_tab: None, next_tab: 0 },
                    ),
                    active: Some(id),
                    next: id,
                };
                assert(workspace_counts(opened.items) =~= workspace_counts(s.items).push(0));
                assert(tab_counts(Seq::<TabView>::empty()) =~= Seq::<nat>::empty());
                lemma_sum_push(workspace_counts(s.items), 0);
                let last = s.items.len() as int;
                assert(is_current(opened.active)(opened.items[last]));
                lemma_find_result(opened.items, is_current(opened.active), 0);
                let i = current_index(opened)->0;
                assert(first.items == opened.items.update(
                    i,
                    new_tab(opened.items[i], (id + 1) as u64, (id + 2) as u64),
                ));
                assert forall|x: int| 0 <= x < last implies !p(#[trigger] first.items[x]) by {
                    if x == i {
                        assert(first.items[x].root == s.items[x].root);
                    } else {
                        assert(first.items[x] == s.items[x]);
                    }
                }
                assert(p(first.items[last]));
                lemma_find_result(first.items, p, 0);
                if find(first.items, p) != Some(last) {
                    let f = find(first.items, p)->0;
                    assert(f < last);
                }
                assert(first.items[last].id == id);
            }
        },
    }
}

/// Each pane of each tab of each workspace with its workspace's folder,
/// workspace after workspace and tab after tab.
pub open spec fn pane_folders(items: Seq<WorkspaceView>) -> Seq<(Id, Seq<char>)>
    decreases items.len(),
{
    if items.len() == 0 {
        Seq::empty()
    } else {
        let w = items.last();
        pane_folders(items.drop_last()) + tabs_pane_ids(w.tabs).map_values(|p: Id| (p, w.root))
    }
}

pub open spec fn folders_view(s: Seq<(Id, String)>) -> Seq<(Id, Seq<char>)> {
    s.map_values(|p: (Id, String)| (p.0, p.1@))
}

impl Workspaces {
    /// Each pane of each tab of each workspace with its workspace's folder.
    pub fn pane_folders(&self) -> (r: Vec<(Id, String)>)
        ensures
            folders_view(r@) == pane_folders(self@.items),
    {
        let ghost items = self@.items;
        let mut out: Vec<(Id, String)> = Vec::new();
        let n = self.items.len();
        let mut i: usize = 0;
        while i < n
            invariant
                n == self.items@.len(),
                items == self@.items,
                i <= n,
                folders_view(out@) == pane_folders(items.take(i as int)),
            decreases n - i,
        {
            proof {
                assert(items.take(i + 1).drop_last() =~= items.take(i as int));
                assert(items.take(i + 1).last() == items[i as int]);
            }
            let w = &self.items[i];
            let ghost before = folders_view(out@);
            let ghost tabs = w@.tabs;
            let m = w.tabs.len();
            let mut j: usize = 0;
            while j < m
                invariant
                    m == w.tabs@.len(),
                    tabs == w@.tabs,
                    j <= m,
                    folders_view(out@) == before + tabs_pane_ids(tabs.take(j as int)).map_values(
                        |p: Id| (p, w@.root),
                    ),
                decreases m - j,
            {
                proof {
                    assert(tabs.take(j + 1).drop_last() =~= tabs.take(j as int));
                    assert(tabs.take(j + 1).last() == tabs[j as int]);
                }
                let ids = w.tabs[j].layout.panes();
                let ghost mid = folders_view(out@);
                let k = ids.len();
                let mut q: usize = 0;
                while q < k
                    invariant
                        k == ids@.len(),
                        q <= k,
                        folders_view(out@) == mid + ids@.take(q as int).map_values(|p: Id| (p, w@.root)),
                    decreases k - q,
                {
                    let ghost prev = folders_view(out@);
                    let root = w.root.clone();
                    proof {
                        assert(root@ == w@.root);
                    }
                    out.push((ids[q], root));
                    proof {
                        assert(folders_view(out@) =~= prev.push((ids@[q as int], w@.root)));
                        assert(ids@.take(q + 1).map_values(|p: Id| (p, w@.root)) =~= ids@.take(q as int).map_values(
                            |p: Id| (p, w@.root),
                        ).push((ids@[q as int], w@.root)));
                    }
                    q += 1;
                    proof {
                        assert(folders_view(out@) =~= mid + ids@.take(q as int).map_values(|p: Id| (p, w@.root)));
                    }
                }
                j += 1;
                proof {
                    assert(ids@.take(k as int) =~= ids@);
                    assert(folders_view(out@) =~= before + tabs_pane_ids(tabs.take(j as int)).map_values(
                        |p: Id| (p, w@.root),
                    ));
                }
            }
            i += 1;
            proof {
                assert(tabs.take(m as int) =~= tabs);
                assert(folders_view(out@) =~= pane_folders(items.take(i as int)));
            }
        }
        proof {
            assert(items.take(n as int) =~= items);
        }
        out
    }
}

} // verus!
