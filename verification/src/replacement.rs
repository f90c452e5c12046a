//! The clock (second-chance) eviction policy.
//!
//! A hand sweeps the frame table in a circle. A pinned frame is passed
//! over. An unpinned frame whose reference bit is set loses the bit and is
//! passed over once. The first unpinned frame that the hand finds with its
//! bit clear is the victim. The policy only ever clears reference bits.

use crate::page::{Page, PageView};
use crate::page_constants::FrameId;
use vstd::prelude::*;

verus! {

/// The views of the pages of a frame table, frame by frame.
pub open spec fn frame_views(frames: Seq<Page>) -> Seq<PageView> {
    Seq::new(frames.len(), |i: int| frames[i]@)
}

/// The frame under the hand after `k` steps, for a hand that started at
/// `hand` in a table of `n` frames. Meant for `hand < n` and `k < 2 * n`:
/// a sweep never takes more than two laps.
pub open spec fn frame_at_step(hand: int, k: int, n: int) -> int {
    if hand + k < n {
        hand + k
    } else if hand + k < 2 * n {
        hand + k - n
    } else {
        hand + k - 2 * n
    }
}

/// Number of steps that take a hand from `hand` to frame `i` for the first
/// time, in a table of `n` frames.
pub open spec fn steps_to(hand: int, i: int, n: int) -> int {
    if i >= hand {
        i - hand
    } else {
        i + n - hand
    }
}

/// The position after `hand` on the circle of `n` frames.
pub open spec fn next_hand(hand: int, n: int) -> int {
    if hand + 1 >= n {
        0
    } else {
        hand + 1
    }
}

/// Whether a sweep that started at `hand` ends at its step `k`: the frame
/// under the hand is unpinned, and its reference bit is clear, either
/// because it was clear from the start or because the first lap cleared it.
pub open spec fn stops_at(frames: Seq<PageView>, hand: int, k: int) -> bool {
    let page = frames[frame_at_step(hand, k, frames.len() as int)];
    page.pin_count == 0 && (k >= frames.len() || !page.ref_bit)
}

/// The first step, from step `from` on, at which the sweep ends; twice the
/// number of frames if it ends at none of them.
pub open spec fn sweep_length(frames: Seq<PageView>, hand: int, from: int) -> int
    decreases 2 * frames.len() - from,
{
    if from >= 2 * frames.len() {
        2 * (frames.len() as int)
    } else if stops_at(frames, hand, from) {
        from
    } else {
        sweep_length(frames, hand, from + 1)
    }
}

/// Every frame is pinned.
pub open spec fn all_pinned(frames: Seq<PageView>) -> bool {
    forall|i: int| 0 <= i < frames.len() ==> (#[trigger] frames[i]).pin_count > 0
}

/// The frame table after the first `k` steps of a sweep from `hand`: every
/// unpinned frame that the hand has passed has its reference bit clear, and
/// nothing else has changed.
pub open spec fn swept(frames: Seq<PageView>, hand: int, k: int) -> Seq<PageView> {
    Seq::new(
        frames.len(),
        |i: int|
            if frames[i].pin_count == 0 && steps_to(hand, i, frames.len() as int) < k {
                PageView { ref_bit: false, ..frames[i] }
            } else {
                frames[i]
            },
    )
}

/// The victim that a sweep from `hand` selects: none if every frame is
/// pinned, else the frame at which the sweep ends.
pub open spec fn victim_of(frames: Seq<PageView>, hand: int) -> Option<FrameId> {
    if all_pinned(frames) {
        None
    } else {
        Some(
            frame_at_step(hand, sweep_length(frames, hand, 0), frames.len() as int) as FrameId,
        )
    }
}

/// The frame table after a sweep from `hand`: unchanged if every frame is
/// pinned, else with the reference bit cleared in every unpinned frame that
/// the hand passed before it reached the victim.
pub open spec fn frames_after_sweep(frames: Seq<PageView>, hand: int) -> Seq<PageView> {
    if all_pinned(frames) {
        frames
    } else {
        swept(frames, hand, sweep_length(frames, hand, 0))
    }
}

/// The hand after a sweep from `hand`: where it was if every frame is
/// pinned, else one past the victim.
pub open spec fn hand_after_sweep(frames: Seq<PageView>, hand: int) -> int {
    match victim_of(frames, hand) {
        None => hand,
        Some(v) => next_hand(v as int, frames.len() as int),
    }
}

/// A step at which the sweep ends, with none before it from `from` on, is
/// the sweep's length.
pub proof fn lemma_sweep_length_is_first_stop(
    frames: Seq<PageView>,
    hand: int,
    from: int,
    k: int,
)
    requires
        0 <= from <= k < 2 * frames.len(),
        stops_at(frames, hand, k),
        forall|j: int| from <= j < k ==> !stops_at(frames, hand, j),
    ensures
        sweep_length(frames, hand, from) == k,
    decreases k - from,
{
    if from < k {
        lemma_sweep_length_is_first_stop(frames, hand, from + 1, k);
    }
}

/// From `from` on, the sweep does not end before its length, and it ends
/// there if its length is less than two laps.
pub proof fn lemma_sweep_length_properties(frames: Seq<PageView>, hand: int, from: int)
    requires
        0 <= from <= 2 * frames.len(),
    ensures
        from <= sweep_length(frames, hand, from) <= 2 * frames.len(),
        forall|j: int| from <= j < sweep_length(frames, hand, from) ==> !stops_at(frames, hand, j),
        sweep_length(frames, hand, from) < 2 * frames.len() ==> stops_at(
            frames,
            hand,
            sweep_length(frames, hand, from),
        ),
    decreases 2 * frames.len() - from,
{
    if from < 2 * frames.len() && !stops_at(frames, hand, from) {
        lemma_sweep_length_properties(frames, hand, from + 1);
    }
}

/// Where some frame is unpinned, the sweep ends within two laps, at an
/// unpinned frame of the table.
pub proof fn lemma_sweep_finds_unpinned(frames: Seq<PageView>, hand: int)
    requires
        0 <= hand < frames.len() <= usize::MAX,
        !all_pinned(frames),
    ensures
        0 <= sweep_length(frames, hand, 0) < 2 * frames.len(),
        stops_at(frames, hand, sweep_length(frames, hand, 0)),
        victim_of(frames, hand) matches Some(v) && v < frames.len() && frames[v as int].pin_count
            == 0,
{
    let n = frames.len() as int;
    let i = choose|i: int| 0 <= i < frames.len() && !((#[trigger] frames[i]).pin_count > 0);
    let k = n + steps_to(hand, i, n);
    assert(frame_at_step(hand, k, n) == i);
    assert(stops_at(frames, hand, k));
    lemma_sweep_length_properties(frames, hand, 0);
}

/// A sweep never selects a pinned frame and never changes one, and all it
/// ever does to a frame is clear its reference bit.
pub proof fn lemma_sweep_spares_pinned(frames: Seq<PageView>, hand: int)
    requires
        0 <= hand < frames.len() <= usize::MAX,
    ensures
        victim_of(frames, hand) matches Some(v) ==> v < frames.len() && frames[v as int].pin_count
            == 0,
        victim_of(frames, hand) is None <==> all_pinned(frames),
        frames_after_sweep(frames, hand).len() == frames.len(),
        forall|i: int|
            0 <= i < frames.len() && frames[i].pin_count > 0 ==> (#[trigger] frames_after_sweep(
                frames,
                hand,
            )[i]) == frames[i],
        forall|i: int|
            0 <= i < frames.len() ==> (#[trigger] frames_after_sweep(frames, hand)[i]) == frames[i]
                || frames_after_sweep(frames, hand)[i] == (PageView {
                ref_bit: false,
                ..frames[i]
            }),
        0 <= hand_after_sweep(frames, hand) < frames.len(),
{
    if !all_pinned(frames) {
        lemma_sweep_finds_unpinned(frames, hand);
    }
}

/// State of the clock: where the hand stands, and over how many frames it
/// turns.
pub struct ClockReplacer {
    hand: usize,
    size: usize,
}

/// The clock as a mathematical value.
pub struct ClockView {
    /// The frame that the next sweep looks at first.
    pub hand: nat,
    /// Number of frames that the hand turns over.
    pub size: nat,
}

impl View for ClockReplacer {
    type V = ClockView;

    closed spec fn view(&self) -> ClockView {
        ClockView { hand: self.hand as nat, size: self.size as nat }
    }
}

impl ClockReplacer {
    /// The hand points at a frame, or the table is empty and the hand rests
    /// at 0.
    pub open spec fn wf(&self) -> bool {
        self@.hand < self@.size || (self@.size == 0 && self@.hand == 0)
    }

    /// Creates a clock over `size` frames, its hand at frame 0.
    pub fn new(size: usize) -> (replacer: Self)
        ensures
            replacer@ == (ClockView { hand: 0, size: size as nat }),
            replacer.wf(),
    {
        ClockReplacer { hand: 0, size }
    }

    /// Selects the frame to evict among `frames` and moves the hand one past
    /// it. Returns `None`, with nothing changed, exactly if every frame is
    /// pinned. A pinned frame is never selected and never changed.
    pub fn victim(&mut self, frames: &mut [Page]) -> (victim: Option<FrameId>)
        requires
            old(self).wf(),
            old(frames)@.len() == old(self)@.size,
        ensures
            final(self).wf(),
            final(self)@.size == old(self)@.size,
            final(frames)@.len() == old(frames)@.len(),
            victim == victim_of(frame_views(old(frames)@), old(self)@.hand as int),
            frame_views(final(frames)@) == frames_after_sweep(
                frame_views(old(frames)@),
                old(self)@.hand as int,
            ),
            final(self)@.hand == hand_after_sweep(
                frame_views(old(frames)@),
                old(self)@.hand as int,
            ),
            victim is None <==> all_pinned(frame_views(old(frames)@)),
            victim matches Some(v) ==> v < old(frames)@.len() && old(frames)@[v as int].pin_count
                == 0,
    {
        let n = self.size;
        let ghost before = frame_views(frames@);
        if n == 0 {
            return None;
        }
        let start = self.hand;
        let ghost mut k: int = 0;
        let mut seen_unpinned = false;
        assert(frame_views(frames@) =~= swept(before, start as int, 0));
        loop
            invariant
                n == self.size,
                n > 0,
                frames@.len() == n,
                before.len() == n,
                start < n,
                0 <= k < 2 * n,
                self.hand == frame_at_step(start as int, k, n as int),
                forall|j: int| 0 <= j < k ==> !stops_at(before, start as int, j),
                frame_views(frames@) == swept(before, start as int, k),
                seen_unpinned <==> exists|j: int|
                    0 <= j < k && j < n && (#[trigger] before[frame_at_step(
                        start as int,
                        j,
                        n as int,
                    )]).pin_count == 0,
                k >= n ==> seen_unpinned,
                before == frame_views(old(frames)@),
                start == old(self)@.hand,
                n == old(self)@.size,
            decreases 2 * n - k,
        {
            let ghost now = frame_views(frames@);
            let ghost at = self.hand as int;
            assert(now[at] == frames@[at]@);
            if frames[self.hand].pin_count > 0 {
                self.advance();
                proof {
                    k = k + 1;
                }
                if self.hand == start && !seen_unpinned {
                    proof {
                        assert(k == n);
                        assert forall|i: int| 0 <= i < n implies (#[trigger] before[i]).pin_count
                            > 0 by {
                            let j = steps_to(start as int, i, n as int);
                            assert(frame_at_step(start as int, j, n as int) == i);
                            if j < k - 1 {
                                assert(before[frame_at_step(start as int, j, n as int)].pin_count
                                    != 0);
                            }
                        }
                        assert(all_pinned(before));
                        assert(now =~= before);
                    }
                    return None;
                }
                proof {
                    lemma_still_sweeping(before, start as int, k, seen_unpinned);
                    lemma_swept_past_pinned(before, start as int, k - 1);
                }
                continue;
            }
            proof {
                assert(before[at].pin_count == 0);
                assert(!all_pinned(before));
            }
            seen_unpinned = true;
            if frames[self.hand].ref_bit {
                frames[self.hand].ref_bit = false;
                self.advance();
                proof {
                    assert(k < n);
                    assert(before[frame_at_step(start as int, k, n as int)].pin_count == 0);
                    lemma_swept_past_unpinned(before, start as int, k);
                    k = k + 1;
                    assert(frame_views(frames@) =~= now.update(
                        at,
                        PageView { ref_bit: false, ..now[at] },
                    ));
                }
            } else {
                let v = self.hand;
                self.advance();
                proof {
                    assert(stops_at(before, start as int, k));
                    lemma_sweep_length_is_first_stop(before, start as int, 0, k);
                }
                return Some(v);
            }
        }
    }

    /// Moves the hand one frame on, back to frame 0 behind the last frame.
    fn advance(&mut self)
        requires
            old(self)@.hand < old(self)@.size,
        ensures
            final(self)@.size == old(self)@.size,
            final(self)@.hand == next_hand(old(self)@.hand as int, old(self)@.size as int),
            final(self).wf(),
    {
        if self.hand + 1 == self.size {
            self.hand = 0;
        } else {
            self.hand = self.hand + 1;
        }
    }
}

/// Passing a pinned frame changes nothing.
proof fn lemma_swept_past_pinned(frames: Seq<PageView>, hand: int, k: int)
    requires
        0 <= hand < frames.len(),
        0 <= k < 2 * frames.len(),
        frames[frame_at_step(hand, k, frames.len() as int)].pin_count > 0,
    ensures
        swept(frames, hand, k + 1) == swept(frames, hand, k),
{
    let n = frames.len() as int;
    assert forall|i: int| 0 <= i < n implies #[trigger] swept(frames, hand, k + 1)[i] == swept(
        frames,
        hand,
        k,
    )[i] by {
        if steps_to(hand, i, n) == k {
            assert(frame_at_step(hand, k, n) == i);
        }
    }
    assert(swept(frames, hand, k + 1) =~= swept(frames, hand, k));
}

/// Passing an unpinned frame in the first lap clears its reference bit and
/// changes nothing else.
proof fn lemma_swept_past_unpinned(frames: Seq<PageView>, hand: int, k: int)
    requires
        0 <= hand < frames.len(),
        0 <= k < frames.len(),
        frames[frame_at_step(hand, k, frames.len() as int)].pin_count == 0,
    ensures
        ({
            let at = frame_at_step(hand, k, frames.len() as int);
            let passed = swept(frames, hand, k);
            &&& passed[at] == frames[at]
            &&& swept(frames, hand, k + 1) == passed.update(
                at,
                PageView { ref_bit: false, ..passed[at] },
            )
        }),
{
    let n = frames.len() as int;
    let at = frame_at_step(hand, k, n);
    let passed = swept(frames, hand, k);
    assert(steps_to(hand, at, n) == k);
    let cleared = passed.update(at, PageView { ref_bit: false, ..passed[at] });
    assert forall|i: int| 0 <= i < n implies #[trigger] swept(frames, hand, k + 1)[i]
        == cleared[i] by {
        if steps_to(hand, i, n) == k {
            assert(i == at);
        }
    }
    assert(swept(frames, hand, k + 1) =~= passed.update(
        at,
        PageView { ref_bit: false, ..passed[at] },
    ));
}

/// A sweep that has not ended after `k` steps, and that has seen an unpinned
/// frame if it is past its first lap, has not used up its two laps.
proof fn lemma_still_sweeping(frames: Seq<PageView>, hand: int, k: int, seen_unpinned: bool)
    requires
        0 <= hand < frames.len(),
        0 <= k <= 2 * frames.len(),
        forall|j: int| 0 <= j < k ==> !stops_at(frames, hand, j),
        seen_unpinned ==> exists|j: int|
            0 <= j < frames.len() && (#[trigger] frames[frame_at_step(
                hand,
                j,
                frames.len() as int,
            )]).pin_count == 0,
        k >= frames.len() ==> seen_unpinned,
    ensures
        k < 2 * frames.len(),
{
    let n = frames.len() as int;
    if k >= n {
        let j = choose|j: int|
            0 <= j < frames.len() && (#[trigger] frames[frame_at_step(hand, j, n)]).pin_count == 0;
        assert(frame_at_step(hand, n + j, n) == frame_at_step(hand, j, n));
        assert(stops_at(frames, hand, n + j));
    }
}

} // verus!
