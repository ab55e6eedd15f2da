//! Keeping the running shells in step with the layouts: after every change
//! to the workspaces, shells of panes that are gone are closed and panes
//! without a shell get one, started in their workspace's folder.
use vstd::prelude::*;
use crate::workspace::{folders_view, Id};

verus! {

/// The panes of a list of panes with their folders.
pub open spec fn ids_of(panes: Seq<(Id, Seq<char>)>) -> Seq<Id> {
    panes.map_values(|p: (Id, Seq<char>)| p.0)
}

/// The shells to close: those of `live` whose pane is not among `panes`,
/// in the order of `live`.
pub open spec fn gone(live: Seq<Id>, panes: Seq<Id>) -> Seq<Id>
    decreases live.len(),
{
    if live.len() == 0 {
        Seq::empty()
    } else if panes.contains(live.last()) {
        gone(live.drop_last(), panes)
    } else {
        gone(live.drop_last(), panes).push(live.last())
    }
}

/// The panes to start a shell for: those of `panes` without one in `live`,
/// in the order of `panes`.
pub open spec fn missing(panes: Seq<(Id, Seq<char>)>, live: Seq<Id>) -> Seq<(Id, Seq<char>)>
    decreases panes.len(),
{
    if panes.len() == 0 {
        Seq::empty()
    } else if live.contains(panes.last().0) {
        missing(panes.drop_last(), live)
    } else {
        missing(panes.drop_last(), live).push(panes.last())
    }
}

/// What to do to bring the shells in step with the layouts.
pub struct SessionPlan {
    /// Panes whose shell closes.
    pub close: Vec<Id>,
    /// Panes that get a shell, with the folder it starts in.
    pub start: Vec<(Id, String)>,
}

fn contains_id(s: &[Id], id: Id) -> (r: bool)
    ensures
        r == s@.contains(id),
{
    let n = s.len();
    let mut i: usize = 0;
    while i < n
        invariant
            n == s@.len(),
            i <= n,
            forall|j: int| 0 <= j < i ==> s@[j] != id,
        decreases n - i,
    {
        if s[i] == id {
            return true;
        }
        i += 1;
    }
    false
}

/// Plans the shells for these panes, given the panes whose shell runs.
pub fn plan_sessions(panes: &[(Id, String)], live: &[Id]) -> (r: SessionPlan)
    ensures
        r.close@ == gone(live@, ids_of(folders_view(panes@))),
        folders_view(r.start@) == missing(folders_view(panes@), live@),
{
    let ghost pv = folders_view(panes@);
    let mut ids: Vec<Id> = Vec::new();
    let n = panes.len();
    let mut i: usize = 0;
    while i < n
        invariant
            n == panes@.len(),
            i <= n,
            pv == folders_view(panes@),
            ids@ == ids_of(pv).take(i as int),
        decreases n - i,
    {
        ids.push(panes[i].0);
        i += 1;
        proof {
            assert(ids@ =~= ids_of(pv).take(i as int));
        }
    }
    proof {
        assert(ids_of(pv).take(n as int) =~= ids_of(pv));
    }
    let mut close: Vec<Id> = Vec::new();
    let m = live.len();
    let mut j: usize = 0;
    while j < m
        invariant
            m == live@.len(),
            j <= m,
            ids@ == ids_of(pv),
            close@ == gone(live@.take(j as int), ids@),
        decreases m - j,
    {
        proof {
            assert(live@.take(j + 1).drop_last() =~= live@.take(j as int));
        }
        if !contains_id(ids.as_slice(), live[j]) {
            close.push(live[j]);
        }
        j += 1;
    }
    proof {
        assert(live@.take(m as int) =~= live@);
    }
    let mut start: Vec<(Id, String)> = Vec::new();
    let mut k: usize = 0;
    while k < n
        invariant
            n == panes@.len(),
            k <= n,
            pv == folders_view(panes@),
            folders_view(start@) == missing(pv.take(k as int), live@),
        decreases n - k,
    {
        proof {
            assert(pv.take(k + 1).drop_last() =~= pv.take(k as int));
        }
        if !contains_id(live, panes[k].0) {
            start.push((panes[k].0, panes[k].1.clone()));
            proof {
                assert(folders_view(start@) =~= missing(pv.take(k + 1), live@));
            }
        }
        k += 1;
    }
    proof {
        assert(pv.take(n as int) =~= pv);
    }
    SessionPlan { close, start }
}

} // verus!
