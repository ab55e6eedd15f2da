//! The folder tree of the files panel: which folders are open, the
//! listings that arrived for them, the folders whose listing failed, and
//! the rows the panel draws. Listing folders is I/O and happens outside;
//! this state machine decides what to ask for and what to keep.
use vstd::prelude::*;
use crate::document::{has_prefix, starts_with_chars};
use crate::files::{Entry, Listing};
use crate::text::{chars_of, str_eq};

verus! {

/// At most this many folders are open at once.
pub const MAX_OPEN_FOLDERS: usize = 128;

/// At most this many entries are listed over all open folders.
pub const MAX_TREE_ENTRIES: usize = 10000;

/// A row of the tree: its depth, the entry it shows, or a note.
pub type Row = (usize, Option<Entry>, String);

/// The abstract tree: listings and failures by folder path, the open
/// folders, and the notice of the folder limit.
pub struct TreeView {
    pub listings: Seq<(Seq<char>, Listing)>,
    pub expanded: Seq<Seq<char>>,
    pub errors: Seq<(Seq<char>, Seq<char>)>,
    pub tree_error: Option<Seq<char>>,
}

/// What toggling a folder did.
#[derive(Clone, Copy, Debug, PartialEq, Eq, Structural)]
pub enum Toggle {
    /// The folder and every folder below it closed.
    Collapsed,
    /// Too many folders are open; the limit notice is shown.
    Refused,
    /// The panel has no access to the workspace yet; nothing changed.
    Unavailable,
    /// The folder opened; its listing is to be fetched.
    Expanded,
}

/// `p` is `path` or lies below it.
pub open spec fn within(p: Seq<char>, path: Seq<char>) -> bool {
    p == path || has_prefix(p, path + seq!['/'])
}

/// The pairs whose key passes `keep`, in order.
pub open spec fn keep_keys<V>(s: Seq<(Seq<char>, V)>, keep: spec_fn(Seq<char>) -> bool) -> Seq<(Seq<char>, V)>
    decreases s.len(),
{
    if s.len() == 0 {
        s
    } else {
        let r = keep_keys(s.drop_last(), keep);
        if keep(s.last().0) {
            r.push(s.last())
        } else {
            r
        }
    }
}

/// The paths that pass `keep`, in order.
pub open spec fn keep_paths(s: Seq<Seq<char>>, keep: spec_fn(Seq<char>) -> bool) -> Seq<Seq<char>>
    decreases s.len(),
{
    if s.len() == 0 {
        s
    } else {
        let r = keep_paths(s.drop_last(), keep);
        if keep(s.last()) {
            r.push(s.last())
        } else {
            r
        }
    }
}

/// The value last stored under `k`.
pub open spec fn lookup<V>(s: Seq<(Seq<char>, V)>, k: Seq<char>) -> Option<V>
    decreases s.len(),
{
    if s.len() == 0 {
        None
    } else if s.last().0 == k {
        Some(s.last().1)
    } else {
        lookup(s.drop_last(), k)
    }
}

/// Keeps every key but `k`.
pub open spec fn not_key(k: Seq<char>) -> spec_fn(Seq<char>) -> bool {
    |x: Seq<char>| x != k
}

/// Keeps the paths that are not `path` and not below it.
pub open spec fn outside(path: Seq<char>) -> spec_fn(Seq<char>) -> bool {
    |p: Seq<char>| !within(p, path)
}

/// `s` with `k` set to `v`.
pub open spec fn set_key<V>(s: Seq<(Seq<char>, V)>, k: Seq<char>, v: V) -> Seq<(Seq<char>, V)> {
    keep_keys(s, not_key(k)).push((k, v))
}

pub open spec fn unique_keys<V>(s: Seq<(Seq<char>, V)>) -> bool {
    forall|i: int, j: int| 0 <= i < j < s.len() ==> s[i].0 != s[j].0
}

/// The number of entries over these listings.
pub open spec fn listed_count(s: Seq<(Seq<char>, Listing)>) -> int
    decreases s.len(),
{
    if s.len() == 0 {
        0
    } else {
        listed_count(s.drop_last()) + s.last().1.entries@.len()
    }
}

/// Every entry of a folder's listing has a longer path than the folder.
pub open spec fn listing_below(path: Seq<char>, l: Listing) -> bool {
    forall|i: int| 0 <= i < l.entries@.len() ==> l.entries@[i].path@.len() > path.len()
}

/// The number of open folders with a path longer than `n`.
pub open spec fn count_longer(s: Seq<Seq<char>>, n: nat) -> nat
    decreases s.len(),
{
    if s.len() == 0 {
        0
    } else {
        count_longer(s.drop_last(), n) + if s.last().len() > n {
            1nat
        } else {
            0nat
        }
    }
}

proof fn lemma_longer_monotone(s: Seq<Seq<char>>, a: nat, b: nat)
    requires
        a >= b,
    ensures
        count_longer(s, a) <= count_longer(s, b),
    decreases s.len(),
{
    if s.len() > 0 {
        lemma_longer_monotone(s.drop_last(), a, b);
    }
}

proof fn lemma_longer_bound(s: Seq<Seq<char>>, n: nat)
    ensures
        count_longer(s, n) <= s.len(),
    decreases s.len(),
{
    if s.len() > 0 {
        lemma_longer_bound(s.drop_last(), n);
    }
}

pub proof fn lemma_longer_decreases(s: Seq<Seq<char>>, x: Seq<char>, n: nat)
    requires
        s.contains(x),
        x.len() > n,
    ensures
        count_longer(s, x.len()) < count_longer(s, n),
    decreases s.len(),
{
    let d = s.drop_last();
    if s.last() == x {
        lemma_longer_monotone(d, x.len(), n);
    } else {
        let i = choose|i: int| 0 <= i < s.len() && s[i] == x;
        assert(d[i] == x);
        lemma_longer_decreases(d, x, n);
    }
}

/// The rows of the folder `path` at this depth: its failure, a loading
/// note, or its entries with the open folders among them unfolded, then a
/// note when the listing was cut or is empty.
pub open spec fn tree_rows(t: TreeView, path: Seq<char>, depth: int) -> Seq<(int, Option<Entry>, Seq<char>)>
    decreases count_longer(t.expanded, path.len()), 1nat, 0nat,
{
    match lookup(t.errors, path) {
        Some(e) => seq![(depth, None::<Entry>, e)],
        None => match lookup(t.listings, path) {
            None => seq![(depth, None::<Entry>, "Loading…"@)],
            Some(l) => entries_rows(t, path, l.entries@, depth) + (if l.truncated {
                seq![(depth, None::<Entry>, "Folder listing limited to 2,000 entries"@)]
            } else {
                Seq::empty()
            }) + (if l.entries@.len() == 0 {
                seq![(depth, None::<Entry>, "Empty folder"@)]
            } else {
                Seq::empty()
            }),
        },
    }
}

/// The rows of these entries of the folder `path`.
pub open spec fn entries_rows(t: TreeView, path: Seq<char>, entries: Seq<Entry>, depth: int) -> Seq<
    (int, Option<Entry>, Seq<char>),
>
    decreases count_longer(t.expanded, path.len()), 0nat, entries.len(),
{
    if entries.len() == 0 {
        Seq::empty()
    } else {
        let e = entries.last();
        let before = entries_rows(t, path, entries.drop_last(), depth);
        let own = seq![(depth, Some(e), Seq::<char>::empty())];
        if e.directory && t.expanded.contains(e.path@) && e.path@.len() > path.len() {
            proof {
                lemma_longer_decreases(t.expanded, e.path@, path.len());
            }
            before + own + tree_rows(t, e.path@, depth + 1)
        } else {
            before + own
        }
    }
}

pub open spec fn row_view(r: Row) -> (int, Option<Entry>, Seq<char>) {
    (r.0 as int, r.1, r.2@)
}

pub open spec fn rows_view(s: Seq<Row>) -> Seq<(int, Option<Entry>, Seq<char>)> {
    s.map_values(|r: Row| row_view(r))
}

/// The tree after the folder `path` closes: it and every folder below it
/// lose their open mark, listing and failure; the limit notice goes once
/// fewer folders than the limit are open.
pub open spec fn after_collapse(t: TreeView, path: Seq<char>) -> TreeView {
    let keep = outside(path);
    let expanded = keep_paths(t.expanded, keep);
    TreeView {
        listings: keep_keys(t.listings, keep),
        expanded,
        errors: keep_keys(t.errors, keep),
        tree_error: if t.tree_error is Some && expanded.len() < MAX_OPEN_FOLDERS {
            None
        } else {
            t.tree_error
        },
    }
}

proof fn lemma_keep_keys_sub<V>(s: Seq<(Seq<char>, V)>, keep: spec_fn(Seq<char>) -> bool)
    ensures
        forall|i: int|
            0 <= i < keep_keys(s, keep).len() ==> exists|j: int|
                0 <= j < s.len() && #[trigger] keep_keys(s, keep)[i] == s[j],
        keep_keys(s, keep).len() <= s.len(),
    decreases s.len(),
{
    if s.len() > 0 {
        lemma_keep_keys_sub(s.drop_last(), keep);
        let r = keep_keys(s.drop_last(), keep);
        assert forall|i: int| 0 <= i < keep_keys(s, keep).len() implies exists|j: int|
            0 <= j < s.len() && #[trigger] keep_keys(s, keep)[i] == s[j] by {
            if i < r.len() {
                let j = choose|j: int| 0 <= j < s.drop_last().len() && r[i] == s.drop_last()[j];
                assert(keep_keys(s, keep)[i] == s[j]);
            } else {
                assert(keep_keys(s, keep)[i] == s[s.len() - 1]);
            }
        }
    }
}

proof fn lemma_keep_keys_unique<V>(s: Seq<(Seq<char>, V)>, keep: spec_fn(Seq<char>) -> bool)
    requires
        unique_keys(s),
    ensures
        unique_keys(keep_keys(s, keep)),
        forall|i: int| 0 <= i < keep_keys(s, keep).len() ==> keep(#[trigger] keep_keys(s, keep)[i].0),
    decreases s.len(),
{
    if s.len() > 0 {
        let d = s.drop_last();
        lemma_keep_keys_unique(d, keep);
        lemma_keep_keys_sub(d, keep);
        let r = keep_keys(d, keep);
        if keep(s.last().0) {
            assert forall|i: int| 0 <= i < r.len() implies r[i].0 != s.last().0 by {
                let j = choose|j: int| 0 <= j < d.len() && r[i] == d[j];
                assert(s[j] == d[j]);
            }
        }
    }
}

proof fn lemma_set_key_unique<V>(s: Seq<(Seq<char>, V)>, k: Seq<char>, v: V)
    requires
        unique_keys(s),
    ensures
        unique_keys(set_key(s, k, v)),
{
    let keep = not_key(k);
    lemma_keep_keys_unique(s, keep);
    let r = keep_keys(s, keep);
    assert forall|i: int| 0 <= i < r.len() implies r[i].0 != k by {
        assert(keep(r[i].0));
    }
    assert(set_key(s, k, v) == r.push((k, v)));
}

proof fn lemma_keep_paths_sub(s: Seq<Seq<char>>, keep: spec_fn(Seq<char>) -> bool)
    ensures
        forall|i: int|
            0 <= i < keep_paths(s, keep).len() ==> s.contains(#[trigger] keep_paths(s, keep)[i]),
        forall|i: int| 0 <= i < keep_paths(s, keep).len() ==> keep(#[trigger] keep_paths(s, keep)[i]),
        keep_paths(s, keep).len() <= s.len(),
    decreases s.len(),
{
    if s.len() > 0 {
        lemma_keep_paths_sub(s.drop_last(), keep);
        let r = keep_paths(s.drop_last(), keep);
        assert forall|i: int| 0 <= i < keep_paths(s, keep).len() implies s.contains(
            #[trigger] keep_paths(s, keep)[i],
        ) by {
            if i < r.len() {
                let j = choose|j: int| 0 <= j < s.drop_last().len() && s.drop_last()[j] == r[i];
                assert(s[j] == r[i]);
            } else {
                assert(s[s.len() - 1] == keep_paths(s, keep)[i]);
            }
        }
    }
}

proof fn lemma_keep_paths_unique(s: Seq<Seq<char>>, keep: spec_fn(Seq<char>) -> bool)
    requires
        s.no_duplicates(),
    ensures
        keep_paths(s, keep).no_duplicates(),
    decreases s.len(),
{
    if s.len() > 0 {
        let d = s.drop_last();
        assert(d.no_duplicates());
        lemma_keep_paths_unique(d, keep);
        lemma_keep_paths_sub(d, keep);
        let r = keep_paths(d, keep);
        if keep(s.last()) {
            assert forall|i: int| 0 <= i < r.len() implies r[i] != s.last() by {
                let j = choose|j: int| 0 <= j < d.len() && d[j] == r[i];
                assert(s[j] == d[j]);
            }
        }
    }
}

proof fn lemma_lookup_found<V>(s: Seq<(Seq<char>, V)>, k: Seq<char>)
    requires
        lookup(s, k) is Some,
    ensures
        exists|j: int| 0 <= j < s.len() && s[j].0 == k && s[j].1 == lookup(s, k)->0,
    decreases s.len(),
{
    if s.last().0 != k {
        lemma_lookup_found(s.drop_last(), k);
        let j = choose|j: int| 0 <= j < s.drop_last().len() && s.drop_last()[j].0 == k
            && s.drop_last()[j].1 == lookup(s, k)->0;
        assert(s[j] == s.drop_last()[j]);
    }
}

pub(crate) proof fn lemma_lookup_tail<V>(s: Seq<(Seq<char>, V)>, k: Seq<char>, i: int)
    requires
        0 <= i <= s.len(),
        forall|j: int| i <= j < s.len() ==> s[j].0 != k,
    ensures
        lookup(s, k) == lookup(s.take(i), k),
    decreases s.len(),
{
    if i < s.len() {
        assert(s.drop_last().take(i) =~= s.take(i));
        lemma_lookup_tail(s.drop_last(), k, i);
    } else {
        assert(s.take(i) =~= s);
    }
}

/// The folder tree of one files panel.
pub struct FileTree {
    listings: Vec<(String, Listing)>,
    expanded: Vec<String>,
    errors: Vec<(String, String)>,
    tree_error: Option<String>,
}

pub open spec fn listings_view(s: Seq<(String, Listing)>) -> Seq<(Seq<char>, Listing)> {
    s.map_values(|e: (String, Listing)| (e.0@, e.1))
}

pub open spec fn errors_view(s: Seq<(String, String)>) -> Seq<(Seq<char>, Seq<char>)> {
    s.map_values(|e: (String, String)| (e.0@, e.1@))
}

pub open spec fn paths_view(s: Seq<String>) -> Seq<Seq<char>> {
    s.map_values(|p: String| p@)
}

impl View for FileTree {
    type V = TreeView;

    closed spec fn view(&self) -> TreeView {
        TreeView {
            listings: listings_view(self.listings@),
            expanded: paths_view(self.expanded@),
            errors: errors_view(self.errors@),
            tree_error: match self.tree_error {
                Some(e) => Some(e@),
                None => None,
            },
        }
    }
}

/// Sets the message stored for `path`, dropping any earlier one.
pub(crate) fn set_error_entry(errors: &mut Vec<(String, String)>, path: &str, e: String)
    ensures
        errors_view(final(errors)@) == set_key(errors_view(old(errors)@), path@, e@),
{
    let ghost s = errors_view(errors@);
    let ghost keep = not_key(path@);
    let mut kept: Vec<(String, String)> = Vec::new();
    let n = errors.len();
    let mut i: usize = 0;
    while i < n
        invariant
            n == errors@.len(),
            i <= n,
            s == errors_view(errors@),
            keep == not_key(path@),
            errors_view(kept@) == keep_keys(s.take(i as int), keep),
        decreases n - i,
    {
        proof {
            assert(s.take(i + 1).drop_last() =~= s.take(i as int));
        }
        if !str_eq(errors[i].0.as_str(), path) {
            kept.push((errors[i].0.clone(), errors[i].1.clone()));
        }
        proof {
            assert(errors_view(kept@) =~= keep_keys(s.take(i + 1), keep));
        }
        i += 1;
    }
    proof {
        assert(s.take(n as int) =~= s);
    }
    kept.push((path.to_owned(), e));
    *errors = kept;
    proof {
        assert(errors_view(errors@) =~= set_key(s, path@, e@));
    }
}

/// The tree's own invariant: each folder opened once and at most the
/// limit open, one listing per folder, and each listing below its folder.
pub open spec fn tree_wf(t: TreeView) -> bool {
    &&& t.expanded.no_duplicates()
    &&& t.expanded.len() <= MAX_OPEN_FOLDERS
    &&& unique_keys(t.listings)
    &&& forall|i: int| 0 <= i < t.listings.len() ==> listing_below(#[trigger] t.listings[i].0, t.listings[i].1)
}

fn copy_entry(e: &Entry) -> (r: Entry)
    ensures
        r == *e,
{
    Entry { name: e.name.clone(), path: e.path.clone(), directory: e.directory, symlink: e.symlink }
}

/// `p` is `path` or lies below it.
fn is_within(p: &str, path: &str) -> (r: bool)
    ensures
        r == within(p@, path@),
{
    if str_eq(p, path) {
        return true;
    }
    let mut prefix = chars_of(path);
    prefix.push('/');
    let pc = chars_of(p);
    proof {
        assert(prefix@ =~= path@ + seq!['/']);
    }
    starts_with_chars(&pc, &prefix)
}

/// Every entry of the listing has a longer path than `path`, as listings of
/// the workspace's folders do.
pub fn is_listing_below(path: &str, l: &Listing) -> (r: bool)
    ensures
        r == listing_below(path@, *l),
{
    let n = l.entries.len();
    let plen = chars_of(path).len();
    let mut i: usize = 0;
    while i < n
        invariant
            n == l.entries@.len(),
            plen == path@.len(),
            i <= n,
            forall|j: int| 0 <= j < i ==> l.entries@[j].path@.len() > path@.len(),
        decreases n - i,
    {
        if chars_of(l.entries[i].path.as_str()).len() <= plen {
            return false;
        }
        i += 1;
    }
    true
}

impl FileTree {
    pub closed spec fn wf(&self) -> bool {
        tree_wf(self@)
    }

    /// A tree with nothing open or listed, as after a refresh.
    pub fn new() -> (r: Self)
        ensures
            r.wf(),
            r@.listings.len() == 0,
            r@.expanded.len() == 0,
            r@.errors.len() == 0,
            r@.tree_error is None,
    {
        FileTree { listings: Vec::new(), expanded: Vec::new(), errors: Vec::new(), tree_error: None }
    }

    /// The notice of the folder limit.
    pub fn tree_error(&self) -> (r: Option<&str>)
        ensures
            match r {
                Some(e) => self@.tree_error == Some(e@),
                None => self@.tree_error is None,
            },
    {
        match &self.tree_error {
            Some(e) => Some(e.as_str()),
            None => None,
        }
    }

    /// The folder is open.
    pub fn is_expanded(&self, path: &str) -> (r: bool)
        ensures
            r == self@.expanded.contains(path@),
    {
        let n = self.expanded.len();
        let mut i: usize = 0;
        while i < n
            invariant
                n == self.expanded@.len(),
                i <= n,
                forall|j: int| 0 <= j < i ==> self.expanded@[j]@ != path@,
            decreases n - i,
        {
            if str_eq(self.expanded[i].as_str(), path) {
                proof {
                    assert(self@.expanded[i as int] == path@);
                }
                return true;
            }
            i += 1;
        }
        proof {
            if self@.expanded.contains(path@) {
                let j = choose|j: int| 0 <= j < n && self@.expanded[j] == path@;
                assert(self.expanded@[j]@ == path@);
            }
        }
        false
    }

    fn find_listing(&self, path: &str) -> (r: Option<usize>)
        ensures
            match r {
                Some(i) => i < self.listings@.len() && self@.listings[i as int].0 == path@ && lookup(
                    self@.listings,
                    path@,
                ) == Some(self@.listings[i as int].1),
                None => lookup(self@.listings, path@) is None,
            },
    {
        let ghost s = self@.listings;
        let mut i: usize = self.listings.len();
        while i > 0
            invariant
                i <= s.len(),
                s == listings_view(self.listings@),
                forall|j: int| i <= j < s.len() ==> s[j].0 != path@,
            decreases i,
        {
            if str_eq(self.listings[i - 1].0.as_str(), path) {
                proof {
                    lemma_lookup_tail(s, path@, i as int);
                    assert(s.take(i as int).last() == s[i - 1]);
                }
                return Some(i - 1);
            }
            i -= 1;
        }
        proof {
            lemma_lookup_tail(s, path@, 0);
        }
        None
    }

    fn find_error(&self, path: &str) -> (r: Option<usize>)
        ensures
            match r {
                Some(i) => i < self.errors@.len() && lookup(self@.errors, path@) == Some(self@.errors[i as int].1),
                None => lookup(self@.errors, path@) is None,
            },
    {
        let ghost s = self@.errors;
        let mut i: usize = self.errors.len();
        while i > 0
            invariant
                i <= s.len(),
                s == errors_view(self.errors@),
                forall|j: int| i <= j < s.len() ==> s[j].0 != path@,
            decreases i,
        {
            if str_eq(self.errors[i - 1].0.as_str(), path) {
                proof {
                    lemma_lookup_tail(s, path@, i as int);
                    assert(s.take(i as int).last() == s[i - 1]);
                }
                return Some(i - 1);
            }
            i -= 1;
        }
        proof {
            lemma_lookup_tail(s, path@, 0);
        }
        None
    }

    /// The listing of the folder, if it arrived.
    pub fn listing(&self, path: &str) -> (r: Option<&Listing>)
        ensures
            match r {
                Some(l) => lookup(self@.listings, path@) == Some(*l),
                None => lookup(self@.listings, path@) is None,
            },
    {
        match self.find_listing(path) {
            Some(i) => Some(&self.listings[i].1),
            None => None,
        }
    }

    /// Why the folder could not be listed, if it could not.
    pub fn error(&self, path: &str) -> (r: Option<&str>)
        ensures
            match r {
                Some(e) => lookup(self@.errors, path@) == Some(e@),
                None => lookup(self@.errors, path@) is None,
            },
    {
        match self.find_error(path) {
            Some(i) => Some(self.errors[i].1.as_str()),
            None => None,
        }
    }

    fn keep_listings_where(&mut self, path: &str, subtree: bool)
        ensures
            final(self)@.listings == (if subtree {
                keep_keys(old(self)@.listings, outside(path@))
            } else {
                keep_keys(old(self)@.listings, not_key(path@))
            }),
            final(self)@.expanded == old(self)@.expanded,
            final(self)@.errors == old(self)@.errors,
            final(self)@.tree_error == old(self)@.tree_error,
    {
        let ghost s = self@.listings;
        let ghost keep = if subtree {
            outside(path@)
        } else {
            not_key(path@)
        };
        let ghost mut c: int = 0;
        let mut i: usize = 0;
        while i < self.listings.len()
            invariant
                0 <= c <= s.len(),
                keep == (if subtree {
                    outside(path@)
                } else {
                    not_key(path@)
                }),
                i == keep_keys(s.take(c), keep).len(),
                listings_view(self.listings@) == keep_keys(s.take(c), keep) + s.skip(c),
                self@.expanded == old(self)@.expanded,
                self@.errors == old(self)@.errors,
                self@.tree_error == old(self)@.tree_error,
                s == old(self)@.listings,
            decreases s.len() - c,
        {
            proof {
                assert(s.take(c + 1).drop_last() =~= s.take(c));
                assert(listings_view(self.listings@)[i as int] == s[c]);
            }
            let key = self.listings[i].0.as_str();
            let drop = if subtree {
                is_within(key, path)
            } else {
                str_eq(key, path)
            };
            if drop {
                let ghost before = listings_view(self.listings@);
                let ghost kk = keep_keys(s.take(c), keep);
                self.listings.remove(i);
                proof {
                    assert(!keep(s[c].0));
                    assert(keep_keys(s.take(c + 1), keep) == kk);
                    assert(listings_view(self.listings@) =~= before.remove(i as int));
                    assert(before.remove(i as int) =~= kk + s.skip(c + 1));
                    c = c + 1;
                    assert(listings_view(self.listings@) =~= keep_keys(s.take(c), keep) + s.skip(c));
                }
            } else {
                i += 1;
                proof {
                    c = c + 1;
                    assert(listings_view(self.listings@) =~= keep_keys(s.take(c), keep) + s.skip(c));
                }
            }
        }
        proof {
            assert(c == s.len()) by {
                if c < s.len() {
                    assert(listings_view(self.listings@).len() > i);
                }
            }
            assert(s.take(c) =~= s);
            assert(listings_view(self.listings@) =~= keep_keys(s, keep));
        }
    }

    fn keep_errors_where(&mut self, path: &str, subtree: bool)
        ensures
            final(self)@.errors == (if subtree {
                keep_keys(old(self)@.errors, outside(path@))
            } else {
                keep_keys(old(self)@.errors, not_key(path@))
            }),
            final(self)@.expanded == old(self)@.expanded,
            final(self)@.listings == old(self)@.listings,
            final(self)@.tree_error == old(self)@.tree_error,
    {
        let ghost s = self@.errors;
        let ghost keep = if subtree {
            outside(path@)
        } else {
            not_key(path@)
        };
        let mut kept: Vec<(String, String)> = Vec::new();
        let n = self.errors.len();
        let mut i: usize = 0;
        while i < n
            invariant
                n == self.errors@.len(),
                i <= n,
                s == errors_view(self.errors@),
                keep == (if subtree {
                    outside(path@)
                } else {
                    not_key(path@)
                }),
                errors_view(kept@) == keep_keys(s.take(i as int), keep),
            decreases n - i,
        {
            proof {
                assert(s.take(i + 1).drop_last() =~= s.take(i as int));
            }
            let key = self.errors[i].0.as_str();
            let drop = if subtree {
                is_within(key, path)
            } else {
                str_eq(key, path)
            };
            if !drop {
                kept.push((self.errors[i].0.clone(), self.errors[i].1.clone()));
            }
            proof {
                assert(errors_view(kept@) =~= keep_keys(s.take(i + 1), keep));
            }
            i += 1;
        }
        proof {
            assert(s.take(n as int) =~= s);
        }
        self.errors = kept;
    }

    fn keep_expanded_outside(&mut self, path: &str)
        ensures
            final(self)@.expanded == keep_paths(old(self)@.expanded, outside(path@)),
            final(self)@.listings == old(self)@.listings,
            final(self)@.errors == old(self)@.errors,
            final(self)@.tree_error == old(self)@.tree_error,
    {
        let ghost s = self@.expanded;
        let ghost keep = outside(path@);
        let mut kept: Vec<String> = Vec::new();
        let n = self.expanded.len();
        let mut i: usize = 0;
        while i < n
            invariant
                n == self.expanded@.len(),
                i <= n,
                s == paths_view(self.expanded@),
                keep == outside(path@),
                paths_view(kept@) == keep_paths(s.take(i as int), keep),
            decreases n - i,
        {
            proof {
                assert(s.take(i + 1).drop_last() =~= s.take(i as int));
            }
            if !is_within(self.expanded[i].as_str(), path) {
                kept.push(self.expanded[i].clone());
            }
            proof {
                assert(paths_view(kept@) =~= keep_paths(s.take(i + 1), keep));
            }
            i += 1;
        }
        proof {
            assert(s.take(n as int) =~= s);
        }
        self.expanded = kept;
    }

    /// Opens or closes a folder, as a click on it does. `ready` tells that
    /// the panel may read the workspace.
    pub fn toggle_directory(&mut self, path: &str, ready: bool) -> (r: Toggle)
        requires
            old(self).wf(),
        ensures
            final(self).wf(),
            old(self)@.expanded.contains(path@) ==> r == Toggle::Collapsed && final(self)@ == after_collapse(
                old(self)@,
                path@,
            ),
            !old(self)@.expanded.contains(path@) && old(self)@.expanded.len() >= MAX_OPEN_FOLDERS ==> r
                == Toggle::Refused && final(self)@ == (TreeView {
                tree_error: Some("Collapse a folder before expanding more (128-folder limit)"@),
                ..old(self)@
            }),
            !old(self)@.expanded.contains(path@) && old(self)@.expanded.len() < MAX_OPEN_FOLDERS && !ready
                ==> r == Toggle::Unavailable && final(self)@ == old(self)@,
            !old(self)@.expanded.contains(path@) && old(self)@.expanded.len() < MAX_OPEN_FOLDERS && ready
                ==> r == Toggle::Expanded && final(self)@ == (TreeView {
                expanded: old(self)@.expanded.push(path@),
                errors: keep_keys(old(self)@.errors, not_key(path@)),
                ..old(self)@
            }),
    {
        if self.is_expanded(path) {
            let ghost keep = outside(path@);
            self.keep_expanded_outside(path);
            self.keep_listings_where(path, true);
            self.keep_errors_where(path, true);
            proof {
                lemma_keep_paths_unique(old(self)@.expanded, keep);
                lemma_keep_paths_sub(old(self)@.expanded, keep);
                lemma_keep_keys_unique(old(self)@.listings, keep);
                lemma_keep_keys_sub(old(self)@.listings, keep);
                assert forall|i: int| 0 <= i < self@.listings.len() implies listing_below(
                    #[trigger] self@.listings[i].0,
                    self@.listings[i].1,
                ) by {
                    let j = choose|j: int|
                        0 <= j < old(self)@.listings.len() && self@.listings[i] == old(self)@.listings[j];
                }
            }
            if self.tree_error.is_some() && self.expanded.len() < MAX_OPEN_FOLDERS {
                self.tree_error = None;
            }
            return Toggle::Collapsed;
        }
        if self.expanded.len() >= MAX_OPEN_FOLDERS {
            self.tree_error = Some("Collapse a folder before expanding more (128-folder limit)".to_owned());
            return Toggle::Refused;
        }
        if !ready {
            return Toggle::Unavailable;
        }
        self.expanded.push(path.to_owned());
        self.keep_errors_where(path, false);
        proof {
            assert(self@.expanded =~= old(self)@.expanded.push(path@));
        }
        Toggle::Expanded
    }

    fn listed_total(&self) -> (r: usize)
        ensures
            r == (if listed_count(self@.listings) > MAX_TREE_ENTRIES {
                MAX_TREE_ENTRIES + 1
            } else {
                listed_count(self@.listings)
            }),
    {
        let ghost s = self@.listings;
        let n = self.listings.len();
        let mut total: usize = 0;
        let mut i: usize = 0;
        while i < n
            invariant
                n == self.listings@.len(),
                i <= n,
                s == listings_view(self.listings@),
                total == (if listed_count(s.take(i as int)) > MAX_TREE_ENTRIES {
                    MAX_TREE_ENTRIES + 1
                } else {
                    listed_count(s.take(i as int))
                }),
            decreases n - i,
        {
            proof {
                assert(s.take(i + 1).drop_last() =~= s.take(i as int));
                assert(listed_count(s.take(i as int)) >= 0) by {
                    lemma_listed_nonneg(s.take(i as int));
                }
            }
            let len = self.listings[i].1.entries.len();
            if total > MAX_TREE_ENTRIES || len > MAX_TREE_ENTRIES - total {
                total = MAX_TREE_ENTRIES + 1;
            } else {
                total = total + len;
            }
            i += 1;
        }
        proof {
            assert(s.take(n as int) =~= s);
        }
        total
    }

    /// Takes the listing, or the failure, that arrived for an open folder;
    /// one for a folder that has since closed is dropped. A listing that
    /// would bring the tree over its entry limit is refused.
    pub fn listing_arrived(&mut self, path: &str, result: Result<Listing, String>)
        requires
            old(self).wf(),
            result matches Ok(l) ==> listing_below(path@, l),
        ensures
            final(self).wf(),
            !old(self)@.expanded.contains(path@) ==> final(self)@ == old(self)@,
            old(self)@.expanded.contains(path@) ==> final(self)@ == match result {
                Ok(l) => if listed_count(old(self)@.listings) + l.entries@.len() > MAX_TREE_ENTRIES {
                    TreeView {
                        errors: set_key(
                            old(self)@.errors,
                            path@,
                            "File tree limit reached; collapse folders or refresh"@,
                        ),
                        ..old(self)@
                    }
                } else {
                    TreeView { listings: set_key(old(self)@.listings, path@, l), ..old(self)@ }
                },
                Err(e) => TreeView { errors: set_key(old(self)@.errors, path@, e@), ..old(self)@ },
            },
    {
        if !self.is_expanded(path) {
            return;
        }
        match result {
            Ok(listing) => {
                let total = self.listed_total();
                let len = listing.entries.len();
                if total > MAX_TREE_ENTRIES || len > MAX_TREE_ENTRIES - total {
                    self.set_error(path, "File tree limit reached; collapse folders or refresh".to_owned());
                } else {
                    self.set_listing(path, listing);
                }
            },
            Err(e) => {
                self.set_error(path, e);
            },
        }
    }

    /// Takes the listing, or the failure, of the workspace's top folder.
    pub fn root_arrived(&mut self, result: Result<Listing, String>)
        requires
            old(self).wf(),
            result matches Ok(l) ==> listing_below(Seq::<char>::empty(), l),
        ensures
            final(self).wf(),
            final(self)@ == match result {
                Ok(l) => TreeView { listings: set_key(old(self)@.listings, Seq::<char>::empty(), l), ..old(self)@ },
                Err(e) => TreeView {
                    errors: set_key(old(self)@.errors, Seq::<char>::empty(), e@),
                    ..old(self)@
                },
            },
    {
        let root = "";
        proof {
            reveal_strlit("");
            assert(root@ =~= Seq::<char>::empty());
        }
        match result {
            Ok(listing) => self.set_listing(root, listing),
            Err(e) => self.set_error(root, e),
        }
    }

    fn set_listing(&mut self, path: &str, listing: Listing)
        requires
            old(self).wf(),
            listing_below(path@, listing),
        ensures
            final(self).wf(),
            final(self)@ == (TreeView { listings: set_key(old(self)@.listings, path@, listing), ..old(self)@ }),
    {
        let ghost keep = not_key(path@);
        let ghost s = self@.listings;
        self.keep_listings_where(path, false);
        self.listings.push((path.to_owned(), listing));
        proof {
            assert(self@.listings =~= set_key(s, path@, listing));
            lemma_set_key_unique(s, path@, listing);
            lemma_keep_keys_sub(s, keep);
            assert forall|i: int| 0 <= i < self@.listings.len() implies listing_below(
                #[trigger] self@.listings[i].0,
                self@.listings[i].1,
            ) by {
                if i < self@.listings.len() - 1 {
                    let j = choose|j: int| 0 <= j < s.len() && keep_keys(s, keep)[i] == s[j];
                }
            }
        }
    }

    fn set_error(&mut self, path: &str, e: String)
        requires
            old(self).wf(),
        ensures
            final(self).wf(),
            final(self)@ == (TreeView { errors: set_key(old(self)@.errors, path@, e@), ..old(self)@ }),
    {
        set_error_entry(&mut self.errors, path, e);
    }

    /// The rows the panel draws for the folder `path` at this depth,
    /// appended to `out`.
    fn rows_into(&self, path: &str, depth: usize, out: &mut Vec<Row>)
        requires
            self.wf(),
            depth + count_longer(self@.expanded, path@.len()) <= MAX_OPEN_FOLDERS,
        ensures
            rows_view(final(out)@) == rows_view(old(out)@) + tree_rows(self@, path@, depth as int),
        decreases count_longer(self@.expanded, path@.len()),
    {
        let ghost t = self@;
        let ghost start = rows_view(out@);
        if let Some(i) = self.find_error(path) {
            out.push((depth, None, self.errors[i].1.clone()));
            proof {
                assert(rows_view(out@) =~= start + tree_rows(t, path@, depth as int));
            }
            return;
        }
        let li = match self.find_listing(path) {
            Some(li) => li,
            None => {
                out.push((depth, None, "Loading…".to_owned()));
                proof {
                    reveal_strlit("Loading…");
                    assert(rows_view(out@) =~= start + tree_rows(t, path@, depth as int));
                }
                return;
            },
        };
        let listing = &self.listings[li].1;
        let ghost entries = listing.entries@;
        proof {
            assert(listing_below(t.listings[li as int].0, t.listings[li as int].1));
        }
        let n = listing.entries.len();
        let mut j: usize = 0;
        while j < n
            invariant
                self.wf(),
                t == self@,
                n == entries.len(),
                entries == listing.entries@,
                listing_below(path@, *listing),
                lookup(t.listings, path@) == Some(*listing),
                lookup(t.errors, path@) is None,
                depth + count_longer(t.expanded, path@.len()) <= MAX_OPEN_FOLDERS,
                j <= n,
                rows_view(out@) == start + entries_rows(t, path@, entries.take(j as int), depth as int),
            decreases n - j,
        {
            proof {
                assert(entries.take(j + 1).drop_last() =~= entries.take(j as int));
                assert(entries.take(j + 1).last() == entries[j as int]);
            }
            let e = &listing.entries[j];
            let ghost before = rows_view(out@);
            out.push((depth, Some(copy_entry(e)), String::new()));
            proof {
                assert(rows_view(out@) =~= before + seq![(depth as int, Some(*e), Seq::<char>::empty())]);
            }
            if e.directory && self.is_expanded(e.path.as_str()) {
                proof {
                    assert(e.path@.len() > path@.len());
                    lemma_longer_decreases(t.expanded, e.path@, path@.len());
                }
                let ghost mid = rows_view(out@);
                self.rows_into(e.path.as_str(), depth + 1, out);
                proof {
                    assert(rows_view(out@) == mid + tree_rows(t, e.path@, depth + 1));
                    assert(rows_view(out@) =~= start + entries_rows(t, path@, entries.take(j + 1), depth as int));
                }
            } else {
                proof {
                    assert(rows_view(out@) =~= start + entries_rows(t, path@, entries.take(j + 1), depth as int));
                }
            }
            j += 1;
        }
        proof {
            assert(entries.take(n as int) =~= entries);
        }
        let ghost after_entries = rows_view(out@);
        if listing.truncated {
            out.push((depth, None, "Folder listing limited to 2,000 entries".to_owned()));
        }
        let ghost after_cut = rows_view(out@);
        if n == 0 {
            out.push((depth, None, "Empty folder".to_owned()));
        }
        proof {
            assert(after_cut =~= after_entries + (if listing.truncated {
                seq![(depth as int, None::<Entry>, "Folder listing limited to 2,000 entries"@)]
            } else {
                Seq::empty()
            }));
            assert(rows_view(out@) =~= after_cut + (if n == 0 {
                seq![(depth as int, None::<Entry>, "Empty folder"@)]
            } else {
                Seq::empty()
            }));
            assert(rows_view(out@) =~= start + tree_rows(t, path@, depth as int));
        }
    }

    /// The rows the panel draws, from the workspace's top folder down.
    pub fn rows(&self) -> (r: Vec<Row>)
        requires
            self.wf(),
        ensures
            rows_view(r@) == tree_rows(self@, Seq::<char>::empty(), 0),
    {
        let mut out: Vec<Row> = Vec::new();
        let root = "";
        proof {
            reveal_strlit("");
            assert(root@ =~= Seq::<char>::empty());
            lemma_longer_bound(self@.expanded, 0);
            assert(rows_view(out@) =~= Seq::empty());
        }
        self.rows_into(root, 0, &mut out);
        proof {
            assert(rows_view(out@) =~= tree_rows(self@, Seq::<char>::empty(), 0));
        }
        out
    }
}

proof fn lemma_listed_nonneg(s: Seq<(Seq<char>, Listing)>)
    ensures
        listed_count(s) >= 0,
    decreases s.len(),
{
    if s.len() > 0 {
        lemma_listed_nonneg(s.drop_last());
    }
}

/// The tree's invariant holds whatever is done to it: every operation on a
/// well-formed tree leaves it well-formed, so the open folders never exceed
/// the limit and each is open once.
pub proof fn law_open_folders_stay_within_limit(t: FileTree)
    requires
        t.wf(),
    ensures
        t@.expanded.len() <= MAX_OPEN_FOLDERS,
        t@.expanded.no_duplicates(),
{
}

/// Closing a folder closes everything below it: no folder at or below the
/// closed one stays open, listed or marked as failed.
pub proof fn law_collapse_closes_everything_below(t: TreeView, path: Seq<char>)
    ensures
        forall|i: int|
            0 <= i < after_collapse(t, path).expanded.len() ==> !within(
                #[trigger] after_collapse(t, path).expanded[i],
                path,
            ),
        forall|i: int|
            0 <= i < after_collapse(t, path).listings.len() ==> !within(
                #[trigger] after_collapse(t, path).listings[i].0,
                path,
            ),
        forall|i: int|
            0 <= i < after_collapse(t, path).errors.len() ==> !within(
                #[trigger] after_collapse(t, path).errors[i].0,
                path,
            ),
{
    lemma_keep_paths_sub(t.expanded, outside(path));
    lemma_keep_keys_pass(t.listings, outside(path));
    lemma_keep_keys_pass(t.errors, outside(path));
}

proof fn lemma_keep_keys_pass<V>(s: Seq<(Seq<char>, V)>, keep: spec_fn(Seq<char>) -> bool)
    ensures
        forall|i: int| 0 <= i < keep_keys(s, keep).len() ==> keep(#[trigger] keep_keys(s, keep)[i].0),
    decreases s.len(),
{
    if s.len() > 0 {
        let r = keep_keys(s.drop_last(), keep);
        lemma_keep_keys_pass(s.drop_last(), keep);
        assert forall|i: int| 0 <= i < keep_keys(s, keep).len() implies keep(
            #[trigger] keep_keys(s, keep)[i].0,
        ) by {
            if i < r.len() {
                assert(keep_keys(s, keep)[i] == r[i]);
            }
        }
    }
}

} // verus!
