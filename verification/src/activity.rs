//! The agent activity shown on the panes of the workspace window: the last
//! state each pane's hook reported, and the notice that calls attention to
//! a pane that waits for its user.
use vstd::prelude::*;
use crate::text::str_eq;
use crate::workspace::{pane_title_spec, Workspaces, WorkspacesView};

verus! {

/// How urgent a state is: blocked before working before idle before any
/// other.
pub open spec fn rank(s: Seq<char>) -> int {
    if s == "blocked"@ {
        3
    } else if s == "working"@ {
        2
    } else if s == "idle"@ {
        1
    } else {
        0
    }
}

/// The most urgent state among these panes, the later pane winning a tie.
pub open spec fn strongest(m: Map<u64, Seq<char>>, panes: Seq<u64>) -> Option<Seq<char>>
    decreases panes.len(),
{
    if panes.len() == 0 {
        None
    } else {
        let before = strongest(m, panes.drop_last());
        let p = panes.last();
        if !m.contains_key(p) {
            before
        } else {
            match before {
                Some(b) => if rank(m[p]) >= rank(b) {
                    Some(m[p])
                } else {
                    before
                },
                None => Some(m[p]),
            }
        }
    }
}

/// `p` is the lowest pane that reports `blocked`.
pub open spec fn is_lowest_blocked(m: Map<u64, Seq<char>>, p: u64) -> bool {
    &&& m.contains_key(p)
    &&& m[p] == "blocked"@
    &&& forall|q: u64| m.contains_key(q) && m[q] == "blocked"@ ==> p <= q
}

/// The lowest pane that reports `blocked`, if any does.
pub open spec fn lowest_blocked(m: Map<u64, Seq<char>>) -> Option<u64> {
    if exists|p: u64| is_lowest_blocked(m, p) {
        Some(choose|p: u64| is_lowest_blocked(m, p))
    } else {
        None
    }
}

/// The states as a map from pane to state; a later entry for a pane wins.
pub open spec fn entries_map(s: Seq<(u64, String)>) -> Map<u64, Seq<char>>
    decreases s.len(),
{
    if s.len() == 0 {
        Map::empty()
    } else {
        entries_map(s.drop_last()).insert(s.last().0, s.last().1@)
    }
}

pub open spec fn unique_panes(s: Seq<(u64, String)>) -> bool {
    forall|i: int, j: int| 0 <= i < j < s.len() ==> s[i].0 != s[j].0
}

proof fn lemma_lookup(s: Seq<(u64, String)>, i: int)
    requires
        unique_panes(s),
        0 <= i < s.len(),
    ensures
        entries_map(s).contains_key(s[i].0),
        entries_map(s)[s[i].0] == s[i].1@,
    decreases s.len(),
{
    if i < s.len() - 1 {
        lemma_lookup(s.drop_last(), i);
    }
}

proof fn lemma_absent(s: Seq<(u64, String)>, p: u64)
    requires
        forall|i: int| 0 <= i < s.len() ==> s[i].0 != p,
    ensures
        !entries_map(s).contains_key(p),
    decreases s.len(),
{
    if s.len() > 0 {
        lemma_absent(s.drop_last(), p);
    }
}

proof fn lemma_update(s: Seq<(u64, String)>, i: int, v: String)
    requires
        unique_panes(s),
        0 <= i < s.len(),
    ensures
        entries_map(s.update(i, (s[i].0, v))) == entries_map(s).insert(s[i].0, v@),
    decreases s.len(),
{
    let t = s.update(i, (s[i].0, v));
    if i == s.len() - 1 {
        assert(t.drop_last() =~= s.drop_last());
        assert(entries_map(t) =~= entries_map(s).insert(s[i].0, v@));
    } else {
        assert(t.drop_last() =~= s.drop_last().update(i, (s[i].0, v)));
        lemma_update(s.drop_last(), i, v);
        assert(entries_map(t) =~= entries_map(s).insert(s[i].0, v@));
    }
}

proof fn lemma_remove(s: Seq<(u64, String)>, i: int)
    requires
        unique_panes(s),
        0 <= i < s.len(),
    ensures
        entries_map(s.remove(i)) == entries_map(s).remove(s[i].0),
    decreases s.len(),
{
    let t = s.remove(i);
    if i == s.len() - 1 {
        assert(t =~= s.drop_last());
        lemma_absent(s.drop_last(), s[i].0);
        assert(entries_map(t) =~= entries_map(s).remove(s[i].0));
    } else {
        assert(t.drop_last() =~= s.drop_last().remove(i));
        lemma_remove(s.drop_last(), i);
        assert(entries_map(t) =~= entries_map(s).remove(s[i].0));
    }
}

proof fn lemma_push(s: Seq<(u64, String)>, x: (u64, String))
    ensures
        entries_map(s.push(x)) == entries_map(s).insert(x.0, x.1@),
{
    assert(s.push(x).drop_last() =~= s);
}

/// The abstract state: each pane's last reported state, and the pane that
/// the block notice names.
pub struct ActivityView {
    pub states: Map<u64, Seq<char>>,
    pub notice: Option<u64>,
}

/// The activity of the panes of one window.
pub struct PaneActivity {
    entries: Vec<(u64, String)>,
    notice: Option<u64>,
}

impl View for PaneActivity {
    type V = ActivityView;

    closed spec fn view(&self) -> ActivityView {
        ActivityView { states: entries_map(self.entries@), notice: self.notice }
    }
}

/// The next state after a hook reports `state` for `pane`: `None` and
/// `released` clear the pane; any other state replaces its last one. A
/// pane that becomes blocked raises the notice when notices are on; a
/// pane that stops being blocked drops it.
pub open spec fn after_report(
    v: ActivityView,
    pane: u64,
    state: Option<Seq<char>>,
    notifications: bool,
) -> ActivityView {
    match state {
        Some(s) if s != "released"@ => {
            let was_blocked = v.states.contains_key(pane) && v.states[pane] == "blocked"@;
            ActivityView {
                states: v.states.insert(pane, s),
                notice: if s == "blocked"@ && notifications && !was_blocked {
                    Some(pane)
                } else if s != "blocked"@ && v.notice == Some(pane) {
                    None
                } else {
                    v.notice
                },
            }
        },
        _ => ActivityView {
            states: v.states.remove(pane),
            notice: if v.notice == Some(pane) {
                None
            } else {
                v.notice
            },
        },
    }
}

/// Pane `x.0` is listed as blocked, under its tab's title `x.1`: notices
/// are on, the pane's last state is `blocked`, and it is shown in a tab.
pub open spec fn listed_blocked(
    states: Map<u64, Seq<char>>,
    s: WorkspacesView,
    notifications: bool,
    x: (u64, Seq<char>),
) -> bool {
    &&& notifications
    &&& states.contains_key(x.0)
    &&& states[x.0] == "blocked"@
    &&& pane_title_spec(s, x.0) == Some(x.1)
}

impl PaneActivity {
    /// The entries name each pane once, and the notice names a pane that
    /// is blocked.
    pub closed spec fn wf(&self) -> bool {
        &&& unique_panes(self.entries@)
        &&& match self.notice {
            Some(p) => entries_map(self.entries@).contains_key(p) && entries_map(self.entries@)[p]
                == "blocked"@,
            None => true,
        }
    }

    /// No pane has reported anything.
    pub fn new() -> (r: Self)
        ensures
            r.wf(),
            r@.states == Map::<u64, Seq<char>>::empty(),
            r@.notice is None,
    {
        PaneActivity { entries: Vec::new(), notice: None }
    }

    fn find(&self, pane: u64) -> (r: Option<usize>)
        ensures
            r matches Some(i) ==> i < self.entries@.len() && self.entries@[i as int].0 == pane,
            r is None ==> forall|i: int| 0 <= i < self.entries@.len() ==> self.entries@[i].0 != pane,
    {
        let n = self.entries.len();
        let mut i: usize = 0;
        while i < n
            invariant
                n == self.entries@.len(),
                i <= n,
                forall|j: int| 0 <= j < i ==> self.entries@[j].0 != pane,
            decreases n - i,
        {
            if self.entries[i].0 == pane {
                return Some(i);
            }
            i += 1;
        }
        None
    }

    /// The last state `pane` reported, if it still has one.
    pub fn state(&self, pane: u64) -> (r: Option<&str>)
        requires
            self.wf(),
        ensures
            match r {
                Some(s) => self@.states.contains_key(pane) && self@.states[pane] == s@,
                None => !self@.states.contains_key(pane),
            },
    {
        match self.find(pane) {
            Some(i) => {
                proof {
                    lemma_lookup(self.entries@, i as int);
                }
                Some(self.entries[i].1.as_str())
            },
            None => {
                proof {
                    lemma_absent(self.entries@, pane);
                }
                None
            },
        }
    }

    /// The pane that the block notice names.
    pub fn notice(&self) -> (r: Option<u64>)
        ensures
            r == self@.notice,
    {
        self.notice
    }

    fn set_state(&mut self, pane: u64, state: &str)
        requires
            unique_panes(old(self).entries@),
        ensures
            unique_panes(final(self).entries@),
            entries_map(final(self).entries@) == entries_map(old(self).entries@).insert(pane, state@),
            final(self).notice == old(self).notice,
    {
        let owned = state.to_owned();
        match self.find(pane) {
            Some(i) => {
                proof {
                    lemma_update(self.entries@, i as int, owned);
                }
                self.entries.set(i, (pane, owned));
            },
            None => {
                proof {
                    lemma_push(self.entries@, (pane, owned));
                }
                self.entries.push((pane, owned));
            },
        }
    }

    fn clear_state(&mut self, pane: u64)
        requires
            unique_panes(old(self).entries@),
        ensures
            unique_panes(final(self).entries@),
            entries_map(final(self).entries@) == entries_map(old(self).entries@).remove(pane),
            final(self).notice == old(self).notice,
    {
        match self.find(pane) {
            Some(i) => {
                proof {
                    lemma_remove(self.entries@, i as int);
                }
                self.entries.remove(i);
            },
            None => {
                proof {
                    lemma_absent(self.entries@, pane);
                    assert(entries_map(self.entries@).remove(pane) =~= entries_map(self.entries@));
                }
            },
        }
    }

    /// Takes a hook's report for `pane`. Reports for a pane that has no
    /// terminal in the window (`shown` false) are dropped.
    pub fn report(&mut self, pane: u64, state: Option<&str>, shown: bool, notifications: bool)
        requires
            old(self).wf(),
        ensures
            final(self).wf(),
            final(self)@ == (if shown {
                after_report(
                    old(self)@,
                    pane,
                    match state {
                        Some(s) => Some(s@),
                        None => None,
                    },
                    notifications,
                )
            } else {
                old(self)@
            }),
    {
        if !shown {
            return;
        }
        let was_blocked = match self.state(pane) {
            Some(s) => str_eq(s, "blocked"),
            None => false,
        };
        match state {
            Some(s) if !str_eq(s, "released") => {
                self.set_state(pane, s);
                let blocked = str_eq(s, "blocked");
                if blocked && notifications && !was_blocked {
                    self.notice = Some(pane);
                } else if !blocked && self.notice == Some(pane) {
                    self.notice = None;
                }
            },
            _ => {
                self.clear_state(pane);
                if self.notice == Some(pane) {
                    self.notice = None;
                }
            },
        }
    }

    /// The blocked panes with the titles of their tabs, each pane once, for
    /// the list beside the workspaces; none while notices are off. The
    /// panes come in the order they first reported.
    pub fn blocked_panes(&self, model: &Workspaces, notifications: bool) -> (r: Vec<(u64, String)>)
        requires
            self.wf(),
        ensures
            forall|k: int| 0 <= k < r@.len() ==> listed_blocked(self@.states, model@, notifications, (#[trigger] r@[k].0, r@[k].1@)),
            forall|p: u64|
                notifications && #[trigger] self@.states.contains_key(p) && self@.states[p] == "blocked"@
                    && pane_title_spec(model@, p) is Some ==> exists|k: int| 0 <= k < r@.len() && r@[k].0 == p,
            forall|a: int, b: int| 0 <= a < b < r@.len() ==> r@[a].0 != r@[b].0,
    {
        let mut out: Vec<(u64, String)> = Vec::new();
        if !notifications {
            return out;
        }
        let ghost all = self.entries@;
        let n = self.entries.len();
        let mut i: usize = 0;
        while i < n
            invariant
                n == all.len(),
                all == self.entries@,
                unique_panes(all),
                notifications,
                i <= n,
                forall|k: int| 0 <= k < out@.len() ==> listed_blocked(entries_map(all), model@, notifications, (#[trigger] out@[k].0, out@[k].1@)),
                forall|k: int| 0 <= k < out@.len() ==> exists|j: int| 0 <= j < i && all[j].0 == #[trigger] out@[k].0,
                forall|j: int|
                    0 <= j < i && #[trigger] all[j].1@ == "blocked"@ && pane_title_spec(model@, all[j].0) is Some
                        ==> exists|k: int| 0 <= k < out@.len() && out@[k].0 == all[j].0,
                forall|a: int, b: int| 0 <= a < b < out@.len() ==> out@[a].0 != out@[b].0,
            decreases n - i,
        {
            let pane = self.entries[i].0;
            proof {
                lemma_lookup(all, i as int);
            }
            if str_eq(self.entries[i].1.as_str(), "blocked") {
                match model.pane_title(pane) {
                    Some(title) => {
                        let ghost before = out@;
                        out.push((pane, title));
                        proof {
                            assert forall|k: int| 0 <= k < before.len() implies before[k].0 != pane by {
                                let j = choose|j: int| 0 <= j < i && all[j].0 == before[k].0;
                                assert(all[j].0 != all[i as int].0);
                            }
                            assert(out@[before.len() as int].0 == pane);
                            assert forall|k: int| 0 <= k < out@.len() implies exists|j: int| 0 <= j < i + 1 && all[j].0 == #[trigger] out@[k].0 by {
                                if k < before.len() {
                                    assert(out@[k] == before[k]);
                                    let j = choose|j: int| 0 <= j < i && all[j].0 == before[k].0;
                                    assert(all[j].0 == out@[k].0);
                                } else {
                                    assert(all[i as int].0 == out@[k].0);
                                }
                            }
                            assert forall|j: int|
                                0 <= j < i + 1 && #[trigger] all[j].1@ == "blocked"@ && pane_title_spec(model@, all[j].0) is Some
                                    implies exists|k: int| 0 <= k < out@.len() && out@[k].0 == all[j].0 by {
                                if j < i {
                                    let k = choose|k: int| 0 <= k < before.len() && before[k].0 == all[j].0;
                                    assert(out@[k] == before[k]);
                                } else {
                                    assert(out@[before.len() as int].0 == all[j].0);
                                }
                            }
                        }
                    },
                    None => {},
                }
            }
            i += 1;
        }
        proof {
            assert forall|p: u64|
                notifications && #[trigger] entries_map(all).contains_key(p) && entries_map(all)[p] == "blocked"@
                    && pane_title_spec(model@, p) is Some implies exists|k: int| 0 <= k < out@.len() && out@[k].0 == p by {
                if forall|j: int| 0 <= j < all.len() ==> all[j].0 != p {
                    lemma_absent(all, p);
                }
                let j = choose|j: int| 0 <= j < all.len() && all[j].0 == p;
                lemma_lookup(all, j);
                assert(all[j].1@ == "blocked"@);
            }
        }
        out
    }

    /// Drops a pane whose terminal closed.
    pub fn forget(&mut self, pane: u64)
        requires
            old(self).wf(),
        ensures
            final(self).wf(),
            final(self)@.states == old(self)@.states.remove(pane),
            final(self)@.notice == (if old(self)@.notice == Some(pane) {
                None
            } else {
                old(self)@.notice
            }),
    {
        self.clear_state(pane);
        if self.notice == Some(pane) {
            self.notice = None;
        }
    }

    /// Hides the block notice.
    pub fn dismiss(&mut self)
        requires
            old(self).wf(),
        ensures
            final(self).wf(),
            final(self)@.states == old(self)@.states,
            final(self)@.notice is None,
    {
        self.notice = None;
    }

    fn lowest_blocked_pane(&self) -> (r: Option<u64>)
        requires
            unique_panes(self.entries@),
        ensures
            r == lowest_blocked(entries_map(self.entries@)),
    {
        let ghost m = entries_map(self.entries@);
        let n = self.entries.len();
        let mut best: Option<u64> = None;
        let mut i: usize = 0;
        while i < n
            invariant
                n == self.entries@.len(),
                i <= n,
                unique_panes(self.entries@),
                m == entries_map(self.entries@),
                match best {
                    Some(p) => m.contains_key(p) && m[p] == "blocked"@ && exists|j: int|
                        0 <= j < i && self.entries@[j].0 == p,
                    None => true,
                },
                forall|j: int|
                    0 <= j < i && self.entries@[j].1@ == "blocked"@ ==> (best matches Some(p) && p
                        <= self.entries@[j].0),
            decreases n - i,
        {
            let blocked = str_eq(self.entries[i].1.as_str(), "blocked");
            if blocked {
                proof {
                    lemma_lookup(self.entries@, i as int);
                }
                let p = self.entries[i].0;
                match best {
                    Some(b) => {
                        if p < b {
                            best = Some(p);
                        }
                    },
                    None => {
                        best = Some(p);
                    },
                }
            }
            i += 1;
        }
        proof {
            match best {
                Some(p) => {
                    assert forall|q: u64| m.contains_key(q) && m[q] == "blocked"@ implies p <= q by {
                        if forall|j: int| 0 <= j < n ==> self.entries@[j].0 != q {
                            lemma_absent(self.entries@, q);
                        } else {
                            let j = choose|j: int| 0 <= j < n && self.entries@[j].0 == q;
                            lemma_lookup(self.entries@, j);
                        }
                    }
                    assert(is_lowest_blocked(m, p));
                    let c = choose|c: u64| is_lowest_blocked(m, c);
                    assert(c <= p && p <= c);
                },
                None => {
                    assert forall|q: u64| !is_lowest_blocked(m, q) by {
                        if m.contains_key(q) && m[q] == "blocked"@ {
                            if forall|j: int| 0 <= j < n ==> self.entries@[j].0 != q {
                                lemma_absent(self.entries@, q);
                            } else {
                                let j = choose|j: int| 0 <= j < n && self.entries@[j].0 == q;
                                lemma_lookup(self.entries@, j);
                            }
                        }
                    }
                },
            }
        }
        best
    }

    /// After the preferences are saved: notices off hide the notice; notices
    /// on with none shown raise it for the lowest blocked pane.
    pub fn preferences_saved(&mut self, notifications: bool)
        requires
            old(self).wf(),
        ensures
            final(self).wf(),
            final(self)@.states == old(self)@.states,
            final(self)@.notice == (if !notifications {
                None
            } else if old(self)@.notice is None {
                lowest_blocked(old(self)@.states)
            } else {
                old(self)@.notice
            }),
    {
        if !notifications {
            self.notice = None;
        } else if self.notice.is_none() {
            let lowest = self.lowest_blocked_pane();
            proof {
                if lowest is Some {
                    let m = entries_map(self.entries@);
                    assert(exists|p: u64| is_lowest_blocked(m, p));
                }
            }
            self.notice = lowest;
        }
    }

    /// The most urgent state among the panes of a tab or a workspace.
    pub fn activity_for_panes(&self, panes: &[u64]) -> (r: Option<&str>)
        requires
            self.wf(),
        ensures
            match r {
                Some(s) => strongest(self@.states, panes@) == Some(s@),
                None => strongest(self@.states, panes@) is None,
            },
    {
        let n = panes.len();
        let mut best: Option<&str> = None;
        let mut i: usize = 0;
        while i < n
            invariant
                n == panes@.len(),
                i <= n,
                self.wf(),
                match best {
                    Some(s) => strongest(self@.states, panes@.take(i as int)) == Some(s@),
                    None => strongest(self@.states, panes@.take(i as int)) is None,
                },
            decreases n - i,
        {
            proof {
                assert(panes@.take(i + 1).drop_last() =~= panes@.take(i as int));
            }
            if let Some(s) = self.state(panes[i]) {
                best = match best {
                    Some(b) => if state_rank(s) >= state_rank(b) {
                        Some(s)
                    } else {
                        Some(b)
                    },
                    None => Some(s),
                };
            }
            i += 1;
        }
        proof {
            assert(panes@.take(n as int) =~= panes@);
        }
        best
    }
}

/// The reporting of notices always names a blocked pane: whatever the
/// hooks report, the notice, when there is one, points at a pane whose last
/// state is `blocked`.
pub proof fn law_notice_names_a_blocked_pane(a: PaneActivity)
    requires
        a.wf(),
    ensures
        match a@.notice {
            Some(p) => a@.states.contains_key(p) && a@.states[p] == "blocked"@,
            None => true,
        },
{
}

fn state_rank(s: &str) -> (r: u8)
    ensures
        r == rank(s@),
{
    if str_eq(s, "blocked") {
        3
    } else if str_eq(s, "working") {
        2
    } else if str_eq(s, "idle") {
        1
    } else {
        0
    }
}

/// The mark drawn beside a pane in this state.
pub fn activity_mark(state: Option<&str>) -> (r: &'static str)
    ensures
        r@ == (match state {
            Some(s) => if s@ == "working"@ {
                "●"@
            } else if s@ == "blocked"@ {
                "!"@
            } else {
                "○"@
            },
            None => "○"@,
        }),
{
    match state {
        Some(s) => if str_eq(s, "working") {
            "●"
        } else if str_eq(s, "blocked") {
            "!"
        } else {
            "○"
        },
        None => "○",
    }
}

/// The colour of the mark, as `0xRRGGBB`.
pub fn activity_color(state: Option<&str>) -> (r: u32)
    ensures
        r == (match state {
            Some(s) => if s@ == "working"@ {
                0xc6a66bu32
            } else if s@ == "blocked"@ {
                0xe8aa82u32
            } else if s@ == "idle"@ {
                0x9b958au32
            } else {
                0x544936u32
            },
            None => 0x544936u32,
        }),
{
    match state {
        Some(s) => if str_eq(s, "working") {
            0xc6a66b
        } else if str_eq(s, "blocked") {
            0xe8aa82
        } else if str_eq(s, "idle") {
            0x9b958a
        } else {
            0x544936
        },
        None => 0x544936,
    }
}

} // verus!
