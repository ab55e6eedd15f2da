//! Retain shaped text runs for the current visible frame only. Runs cover
//! whole stretches of same-style cells, so rows shape once instead of once
//! per cell. Backgrounds, selection and positions are painted separately and
//! do not invalidate text. Lookups are positional: the run in the same slot
//! of the previous frame is reused when its text and style are unchanged.
use vstd::prelude::*;

verus! {

#[derive(Clone, Copy, Debug, PartialEq, Eq, Structural)]
pub struct StyleKey {
    pub foreground: u32,
    pub bold: bool,
    pub italic: bool,
    pub underline: bool,
    pub strikeout: bool,
}

struct Entry<T> {
    text: String,
    style: StyleKey,
    layout: T,
}

impl<T> Entry<T> {
    /// Whether this entry shaped this text with this style.
    fn matches(&self, text: &str, style: &StyleKey) -> (r: bool)
        ensures
            r == (self.text@ == text@ && self.style == *style),
    {
        crate::text::str_eq(self.text.as_str(), text) && self.style == *style
    }
}

/// One retained run: its text, style and shaped layout.
pub struct Slot<T> {
    pub text: Seq<char>,
    pub style: StyleKey,
    pub layout: T,
}

spec fn slot_of<T>(e: Entry<T>) -> Slot<T> {
    Slot { text: e.text@, style: e.style, layout: e.layout }
}

/// What a retained run is looked up by: its text and style.
pub open spec fn run_keys<T>(slots: Seq<Slot<T>>) -> Seq<(Seq<char>, StyleKey)> {
    slots.map_values(|x: Slot<T>| (x.text, x.style))
}

/// Whether the lookup at slot `i` of the run keyed `key` finds it retained.
pub open spec fn lookup_hits(keys: Seq<(Seq<char>, StyleKey)>, i: int, key: (Seq<char>, StyleKey)) -> bool {
    0 <= i < keys.len() && keys[i] == key
}

/// The keys after that lookup: slot `i` holds `key`, whether it was
/// retained or shaped anew.
pub open spec fn after_lookup(keys: Seq<(Seq<char>, StyleKey)>, i: int, key: (Seq<char>, StyleKey)) -> Seq<
    (Seq<char>, StyleKey),
> {
    if i < keys.len() {
        keys.update(i, key)
    } else {
        keys.push(key)
    }
}

/// The keys after the lookups `calls` of one frame, made from slot 0 on.
pub open spec fn after_lookups(keys: Seq<(Seq<char>, StyleKey)>, calls: Seq<(Seq<char>, StyleKey)>) -> Seq<
    (Seq<char>, StyleKey),
>
    decreases calls.len(),
{
    if calls.len() == 0 {
        keys
    } else {
        after_lookup(after_lookups(keys, calls.drop_last()), calls.len() - 1, calls.last())
    }
}

/// How many of the lookups `calls` of one frame shape a new run.
pub open spec fn shaped(keys: Seq<(Seq<char>, StyleKey)>, calls: Seq<(Seq<char>, StyleKey)>) -> nat
    decreases calls.len(),
{
    if calls.len() == 0 {
        0
    } else {
        shaped(keys, calls.drop_last()) + if lookup_hits(
            after_lookups(keys, calls.drop_last()),
            calls.len() - 1,
            calls.last(),
        ) {
            0nat
        } else {
            1nat
        }
    }
}

/// During a frame, the lookups so far fill the first slots and leave the
/// others as they were.
pub proof fn lemma_after_lookups(keys: Seq<(Seq<char>, StyleKey)>, calls: Seq<(Seq<char>, StyleKey)>)
    ensures
        after_lookups(keys, calls).len() == if keys.len() < calls.len() {
            calls.len()
        } else {
            keys.len()
        },
        forall|k: int| 0 <= k < calls.len() ==> #[trigger] after_lookups(keys, calls)[k] == calls[k],
        forall|k: int| calls.len() <= k < keys.len() ==> #[trigger] after_lookups(keys, calls)[k] == keys[k],
    decreases calls.len(),
{
    if calls.len() > 0 {
        lemma_after_lookups(keys, calls.drop_last());
    }
}

/// A lookup in a frame finds its run retained exactly when the frame
/// before put the same text in the same style in that slot.
pub proof fn law_lookup_hits_unchanged_slot(keys: Seq<(Seq<char>, StyleKey)>, calls: Seq<(Seq<char>, StyleKey)>, k: int)
    requires
        0 <= k < calls.len(),
    ensures
        lookup_hits(after_lookups(keys, calls.take(k)), k, calls[k]) <==> (k < keys.len() && keys[k] == calls[k]),
{
    lemma_after_lookups(keys, calls.take(k));
}

/// A frame leaves exactly its own runs, in order, once it ends.
pub proof fn law_frame_leaves_its_runs(keys: Seq<(Seq<char>, StyleKey)>, calls: Seq<(Seq<char>, StyleKey)>)
    ensures
        after_lookups(keys, calls).take(calls.len() as int) == calls,
{
    lemma_after_lookups(keys, calls);
    assert(after_lookups(keys, calls).take(calls.len() as int) =~= calls);
}

proof fn lemma_shaped_bound(calls: Seq<(Seq<char>, StyleKey)>, first: Seq<(Seq<char>, StyleKey)>)
    requires
        first.len() >= calls.len(),
        forall|k: int| 0 <= k < calls.len() ==> first[k] == calls[k],
    ensures
        shaped(first, calls) == 0,
        shaped(Seq::empty(), calls) == calls.len(),
    decreases calls.len(),
{
    if calls.len() > 0 {
        let rest = calls.drop_last();
        lemma_shaped_bound(rest, first);
        lemma_after_lookups(first, rest);
        lemma_after_lookups(Seq::empty(), rest);
    }
}

/// Drawing the same runs again, with the same metrics, shapes nothing; the
/// first frame over an empty cache shapes every run.
pub proof fn law_unchanged_frame_shapes_nothing(calls: Seq<(Seq<char>, StyleKey)>)
    ensures
        shaped(calls, calls) == 0,
        shaped(Seq::empty(), calls) == calls.len(),
{
    lemma_shaped_bound(calls, calls);
}

/// One frame: the metrics it is drawn with, as the bit patterns of the font
/// size and scale factor, and the runs it looks up, in order.
pub struct FrameView {
    pub metrics: (u32, u32),
    pub calls: Seq<(Seq<char>, StyleKey)>,
}

/// The runs a frame begun with `metrics` starts from: those retained, when
/// they were shaped with the same metrics, else none.
pub open spec fn kept_at_begin(
    shaped_with: Option<(u32, u32)>,
    keys: Seq<(Seq<char>, StyleKey)>,
    metrics: (u32, u32),
) -> Seq<(Seq<char>, StyleKey)> {
    if shaped_with == Some(metrics) {
        keys
    } else {
        Seq::empty()
    }
}

/// The metrics and the runs retained after drawing `frames`, each begun,
/// looked up and ended in turn, on a new cache.
pub open spec fn after_frames(frames: Seq<FrameView>) -> (Option<(u32, u32)>, Seq<(Seq<char>, StyleKey)>)
    decreases frames.len(),
{
    if frames.len() == 0 {
        (None, Seq::empty())
    } else {
        let (shaped_with, keys) = after_frames(frames.drop_last());
        let f = frames.last();
        (
            Some(f.metrics),
            after_lookups(kept_at_begin(shaped_with, keys, f.metrics), f.calls).take(f.calls.len() as int),
        )
    }
}

/// The runs that frame `f` of `frames` starts from.
pub open spec fn frame_start(frames: Seq<FrameView>, f: int) -> Seq<(Seq<char>, StyleKey)> {
    let (shaped_with, keys) = after_frames(frames.take(f));
    kept_at_begin(shaped_with, keys, frames[f].metrics)
}

/// Whether lookup `k` of frame `f` reuses a retained run instead of shaping.
pub open spec fn frame_hits(frames: Seq<FrameView>, f: int, k: int) -> bool {
    let calls = frames[f].calls;
    lookup_hits(after_lookups(frame_start(frames, f), calls.take(k)), k, calls[k])
}

/// How many runs drawing `frames` on a new cache shapes in all.
pub open spec fn frames_shaped(frames: Seq<FrameView>) -> nat
    decreases frames.len(),
{
    if frames.len() == 0 {
        0
    } else {
        frames_shaped(frames.drop_last()) + shaped(
            frame_start(frames, frames.len() - 1),
            frames.last().calls,
        )
    }
}

/// After a frame, the cache holds that frame's metrics and runs.
pub proof fn lemma_after_frames(frames: Seq<FrameView>)
    requires
        frames.len() > 0,
    ensures
        after_frames(frames) == (Some(frames.last().metrics), frames.last().calls),
{
    let (shaped_with, keys) = after_frames(frames.drop_last());
    let f = frames.last();
    law_frame_leaves_its_runs(kept_at_begin(shaped_with, keys, f.metrics), f.calls);
}

/// A lookup reshapes its run exactly when the frame before, drawn with the
/// same metrics, looked up nothing or something else in that slot: lookup
/// `k` of frame `f` reuses a run exactly when frame `f - 1` exists, had
/// the same metrics, made more than `k` lookups, and its lookup `k` had the
/// same text and style.
pub proof fn law_reshaped_exactly_when_slot_differs(frames: Seq<FrameView>, f: int, k: int)
    requires
        0 <= f < frames.len(),
        0 <= k < frames[f].calls.len(),
    ensures
        frame_hits(frames, f, k) <==> (f > 0 && frames[f - 1].metrics == frames[f].metrics && k < frames[f
            - 1].calls.len() && frames[f - 1].calls[k] == frames[f].calls[k]),
{
    if f > 0 {
        let before = frames.take(f);
        assert(before.last() == frames[f - 1]);
        lemma_after_frames(before);
    } else {
        assert(frames.take(f) =~= Seq::<FrameView>::empty());
    }
    law_lookup_hits_unchanged_slot(frame_start(frames, f), frames[f].calls, k);
}

/// Drawing the same frame `frames.len()` times on a new cache shapes each of
/// its runs once in all: ten identical screens of eighty runs shape eighty.
pub proof fn law_identical_frames_shape_once(frames: Seq<FrameView>)
    requires
        frames.len() > 0,
        forall|f: int| 0 <= f < frames.len() ==> #[trigger] frames[f] == frames[0],
    ensures
        frames_shaped(frames) == frames[0].calls.len(),
    decreases frames.len(),
{
    let n = frames.len() - 1;
    let calls = frames[0].calls;
    law_unchanged_frame_shapes_nothing(calls);
    assert(frames.last() == frames[0]);
    assert(frames.take(n) =~= frames.drop_last());
    if n == 0 {
        assert(frames.take(0) =~= Seq::<FrameView>::empty());
        assert(frame_start(frames, 0) == Seq::<(Seq<char>, StyleKey)>::empty());
        assert(frames_shaped(frames.drop_last()) == 0);
    } else {
        let rest = frames.drop_last();
        assert forall|f: int| 0 <= f < rest.len() implies #[trigger] rest[f] == rest[0] by {
            assert(rest[f] == frames[f]);
        }
        law_identical_frames_shape_once(rest);
        assert(rest[0] == frames[0]);
        let before = frames.take(n);
        assert(before.last() == frames[n - 1]);
        lemma_after_frames(before);
        assert(frames[n - 1] == frames[0]);
        assert(frame_start(frames, n) == calls);
    }
}

pub struct TextCache<T> {
    entries: Vec<Entry<T>>,
    next: usize,
    metrics: Option<(u32, u32)>,
}

/// `Vec::capacity`: the room the allocator reserved, which nothing states.
#[verifier::external_body]
fn reserved<T>(v: &Vec<T>) -> usize {
    v.capacity()
}

/// `Vec::shrink_to_fit`: returns spare room to the allocator; the elements
/// stay as they are.
#[verifier::external_body]
fn release_spare<T>(v: &mut Vec<T>)
    ensures
        final(v)@ == old(v)@,
{
    v.shrink_to_fit()
}

impl<T> TextCache<T> {
    /// Lookups never run ahead of the retained runs.
    pub closed spec fn wf(self) -> bool {
        self.next <= self.entries@.len()
    }

    /// The runs retained, by slot.
    pub closed spec fn slots(self) -> Seq<Slot<T>> {
        self.entries@.map_values(|e: Entry<T>| slot_of(e))
    }

    /// The slot the next lookup uses.
    pub closed spec fn cursor(self) -> nat {
        self.next as nat
    }

    /// The font metrics the retained runs were shaped with, as bit patterns.
    pub closed spec fn shaped_with(self) -> Option<(u32, u32)> {
        self.metrics
    }

    pub fn new() -> (r: Self)
        ensures
            r.wf(),
            r.slots().len() == 0,
            r.cursor() == 0,
            r.shaped_with() is None,
    {
        let r = TextCache { entries: Vec::new(), next: 0, metrics: None };
        proof {
            assert(r.slots() =~= Seq::<Slot<T>>::empty());
        }
        r
    }

    /// Number of runs retained.
    pub fn len(&self) -> (r: usize)
        ensures
            r == self.slots().len(),
    {
        self.entries.len()
    }

    /// Starts a frame drawn with these font metrics, given as the bit
    /// patterns of the font size and scale factor. Other metrics than the
    /// last frame's drop every retained run.
    pub fn begin_frame(&mut self, font_bits: u32, scale_bits: u32)
        ensures
            final(self).wf(),
            final(self).cursor() == 0,
            final(self).shaped_with() == Some((font_bits, scale_bits)),
            final(self).slots() == (if old(self).shaped_with() == Some((font_bits, scale_bits)) {
                old(self).slots()
            } else {
                Seq::empty()
            }),
            run_keys(final(self).slots()) == kept_at_begin(old(self).shaped_with(), run_keys(old(self).slots()), (font_bits, scale_bits)),
    {
        let same = match self.metrics {
            Some((f, s)) => f == font_bits && s == scale_bits,
            None => false,
        };
        if !same {
            self.entries.clear();
            self.metrics = Some((font_bits, scale_bits));
            proof {
                assert(self.slots() =~= Seq::<Slot<T>>::empty());
                assert(run_keys(self.slots()) =~= Seq::<(Seq<char>, StyleKey)>::empty());
            }
        }
        self.next = 0;
    }

    /// Ends the frame: runs past the last slot used are dropped, so text
    /// that scrolled offscreen is not kept.
    pub fn end_frame(&mut self)
        requires
            old(self).wf(),
        ensures
            final(self).wf(),
            final(self).slots() == old(self).slots().take(old(self).cursor() as int),
            run_keys(final(self).slots()) == run_keys(old(self).slots()).take(old(self).cursor() as int),
            final(self).cursor() == old(self).cursor(),
            final(self).shaped_with() == old(self).shaped_with(),
    {
        self.entries.truncate(self.next);
        let limit = if self.next > usize::MAX / 2 {
            usize::MAX
        } else if self.next * 2 > 64 {
            self.next * 2
        } else {
            64
        };
        if reserved(&self.entries) > limit {
            release_spare(&mut self.entries);
        }
        proof {
            assert(self.slots() =~= old(self).slots().take(old(self).cursor() as int));
            assert(run_keys(self.slots()) =~= run_keys(old(self).slots()).take(old(self).cursor() as int));
        }
    }
}

impl<T> Default for TextCache<T> {
    fn default() -> (r: Self)
        ensures
            r.wf(),
            r.slots().len() == 0,
            r.cursor() == 0,
            r.shaped_with() is None,
    {
        Self::new()
    }
}

impl<T: Clone> TextCache<T> {
    /// The layout of `text` in `style` for the next slot: the retained one
    /// when that slot holds the same text and style, else a new one from
    /// `shape`, which the slot then keeps.
    pub fn layout<F: FnOnce() -> T>(&mut self, text: &str, style: StyleKey, shape: F) -> (r: T)
        requires
            old(self).wf(),
            old(self).cursor() < usize::MAX,
            shape.requires(()),
        ensures
            final(self).wf(),
            final(self).cursor() == old(self).cursor() + 1,
            final(self).shaped_with() == old(self).shaped_with(),
            run_keys(final(self).slots()) == after_lookup(run_keys(old(self).slots()), old(self).cursor() as int, (text@, style)),
            ({
                let i = old(self).cursor() as int;
                let before = old(self).slots();
                if lookup_hits(run_keys(before), i, (text@, style)) {
                    final(self).slots() == before && cloned::<T>(before[i].layout, r)
                } else {
                    &&& shape.ensures((), r)
                    &&& final(self).slots().len() == (if i < before.len() {
                        before.len()
                    } else {
                        before.len() + 1
                    })
                    &&& forall|k: int| 0 <= k < before.len() && k != i ==> #[trigger] final(self).slots()[k] == before[k]
                    &&& final(self).slots()[i].text == text@
                    &&& final(self).slots()[i].style == style
                    &&& cloned::<T>(r, final(self).slots()[i].layout)
                }
            }),
    {
        let index = self.next;
        self.next = index + 1;
        if index < self.entries.len() {
            if self.entries[index].matches(text, &style) {
                let kept = self.entries[index].layout.clone();
                proof {
                    let keys = run_keys(old(self).slots());
                    assert(keys[index as int] == (text@, style));
                    assert(keys.update(index as int, (text@, style)) =~= keys);
                }
                return kept;
            }
        }
        let layout = shape();
        let entry = Entry { text: text.to_owned(), style, layout: layout.clone() };
        let ghost before = self.entries@;
        if index == self.entries.len() {
            self.entries.push(entry);
        } else {
            self.entries.set(index, entry);
        }
        proof {
            assert(self.entries@ =~= (if index == before.len() {
                before.push(entry)
            } else {
                before.update(index as int, entry)
            }));
            assert(run_keys(self.slots()) =~= after_lookup(run_keys(old(self).slots()), index as int, (text@, style)));
        }
        layout
    }
}

} // verus!
