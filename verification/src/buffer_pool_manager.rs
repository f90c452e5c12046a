//! The buffer pool: a fixed table of frames, the mapping from resident pages
//! to frames, the list of frames never used, and the clock that picks a
//! frame to reuse when none is free.
//!
//! Every operation takes the pool by exclusive reference and runs to its
//! end, so each is one indivisible transition of the pool's state.

use crate::page::{Page, PageType, PageView};
use crate::page_constants::{FrameId, PageId, PAGE_SIZE};
use crate::replacement::{
    all_pinned, frame_views, frames_after_sweep, hand_after_sweep, lemma_sweep_finds_unpinned,
    victim_of, ClockReplacer,
};
use std::collections::{HashMap, VecDeque};
use vstd::prelude::*;

verus! {

broadcast use vstd::std_specs::hash::group_hash_axioms;

/// One outstanding pin: the page that was fetched and the frame that holds
/// it. Handing it back to [`BufferPoolManager::release`] gives up the pin.
#[derive(Debug, PartialEq, Eq, Structural)]
pub struct PageFrameRef {
    /// The page that is pinned.
    pub page_id: PageId,
    /// The frame that holds it.
    pub frame_index: FrameId,
}

/// How far a fetch got without the backing store, and what it needs from it.
#[derive(Debug, PartialEq, Eq, Structural)]
pub enum FetchStep {
    /// The page was resident. It is pinned, and this is its guard.
    Hit(PageFrameRef),
    /// The page is not resident and every frame is pinned.
    Saturated,
    /// The page is not resident and `frame` was chosen for it. If `flush`
    /// names a page, the frame holds that page with changes that were never
    /// stored: it has to be written out before the frame is bound anew.
    Miss { frame: FrameId, flush: Option<PageId> },
}

/// Everything that the pool keeps.
pub struct BufferPoolState {
    frames: Vec<Page>,
    page_mapping: HashMap<PageId, FrameId>,
    free_list: VecDeque<FrameId>,
    replacer: ClockReplacer,
}

/// The pool's interface.
pub struct BufferPoolManager {
    state: BufferPoolState,
}

/// The pool as a mathematical value.
pub struct PoolView {
    /// The frame table.
    pub frames: Seq<PageView>,
    /// Which frame holds which resident page.
    pub page_mapping: Map<PageId, FrameId>,
    /// The frames never used, in the order in which they will be handed out.
    pub free_list: Seq<FrameId>,
    /// Where the clock's hand stands.
    pub hand: nat,
}

/// The bytes of a page that was never stored.
pub open spec fn blank_bytes(page_id: PageId) -> Seq<u8> {
    PageView::fresh(page_id, PageType::NodeStore).bytes
}

impl PoolView {
    /// What holds of every pool between two operations.
    ///
    /// The mapping and the frame table agree: a page is mapped to a frame
    /// exactly if that frame holds it, so no page is held twice. A frame on
    /// the free list holds no page, is not pinned, and is listed once. The
    /// hand points into the table.
    pub open spec fn inv(self) -> bool {
        &&& self.frames.len() <= usize::MAX
        &&& self.hand < self.frames.len() || (self.hand == 0 && self.frames.len() == 0)
        &&& forall|page_id: PageId| #[trigger]
            self.page_mapping.contains_key(page_id) ==> self.page_mapping[page_id]
                < self.frames.len() && self.frames[self.page_mapping[page_id] as int].page_id
                == Some(page_id)
        &&& forall|f: int, page_id: PageId|
            0 <= f < self.frames.len() && (#[trigger] self.frames[f]).page_id == Some(page_id)
                ==> #[trigger] self.page_mapping.contains_key(page_id)
                && self.page_mapping[page_id] == f
        &&& forall|i: int|
            0 <= i < self.free_list.len() ==> (#[trigger] self.free_list[i]) < self.frames.len()
                && self.frames[self.free_list[i] as int].page_id is None
                && self.frames[self.free_list[i] as int].pin_count == 0
        &&& forall|i: int, j: int|
            0 <= i < j < self.free_list.len() ==> self.free_list[i] != self.free_list[j]
    }

    /// A pool of `pool_size` frames that hold nothing: nothing is mapped,
    /// every frame is on the free list in ascending order, the hand is at 0.
    pub open spec fn empty(pool_size: nat) -> PoolView {
        PoolView {
            frames: Seq::new(
                pool_size,
                |i: int| PageView { page_id: None, ..PageView::fresh(0, PageType::NodeStore) },
            ),
            page_mapping: Map::empty(),
            free_list: Seq::new(pool_size, |i: int| i as FrameId),
            hand: 0,
        }
    }

    /// Whether `page_id` is held by some frame.
    pub open spec fn resident(self, page_id: PageId) -> bool {
        self.page_mapping.contains_key(page_id)
    }

    /// The number of pins on `page_id`; 0 if the page is not resident.
    pub open spec fn pin_count(self, page_id: PageId) -> nat {
        if self.resident(page_id) {
            self.frames[self.page_mapping[page_id] as int].pin_count
        } else {
            0
        }
    }

    /// The pool with one more pin on `frame` and its reference bit set.
    pub open spec fn pin(self, frame: FrameId) -> PoolView {
        let page = self.frames[frame as int];
        PoolView {
            frames: self.frames.update(
                frame as int,
                PageView { pin_count: page.pin_count + 1, ref_bit: true, ..page },
            ),
            ..self
        }
    }

    /// The frame that a miss will use: the head of the free list, or, if
    /// that list is empty, the clock's victim; none if every frame is pinned.
    pub open spec fn chosen_frame(self) -> Option<FrameId> {
        if self.free_list.len() > 0 {
            Some(self.free_list[0])
        } else {
            victim_of(self.frames, self.hand as int)
        }
    }

    /// The pool after a frame was chosen: the free list without its head,
    /// or, if it was empty, the frame table and the hand as the clock's
    /// sweep left them.
    pub open spec fn after_choice(self) -> PoolView {
        if self.free_list.len() > 0 {
            PoolView { free_list: self.free_list.subrange(1, self.free_list.len() as int), ..self }
        } else {
            PoolView {
                frames: frames_after_sweep(self.frames, self.hand as int),
                hand: hand_after_sweep(self.frames, self.hand as int) as nat,
                ..self
            }
        }
    }

    /// The pool after `frame` was given to `page_id`: the page that the
    /// frame held is no longer mapped, the frame holds `bytes` for
    /// `page_id` with one pin, not dirty, reference bit set, and `page_id`
    /// is mapped to it.
    pub open spec fn bind(self, frame: FrameId, page_id: PageId, bytes: Seq<u8>) -> PoolView {
        let kept = match self.frames[frame as int].page_id {
            Some(old_page_id) => self.page_mapping.remove(old_page_id),
            None => self.page_mapping,
        };
        PoolView {
            frames: self.frames.update(
                frame as int,
                PageView {
                    bytes,
                    page_id: Some(page_id),
                    is_dirty: false,
                    pin_count: 1,
                    ref_bit: true,
                },
            ),
            page_mapping: kept.insert(page_id, frame),
            ..self
        }
    }

    /// Whether `frame` can be bound to `page_id`: it is a frame of the
    /// table, not pinned and not on the free list, and the page is not
    /// resident.
    pub open spec fn can_bind(self, frame: FrameId, page_id: PageId) -> bool {
        &&& frame < self.frames.len()
        &&& self.frames[frame as int].pin_count == 0
        &&& !self.resident(page_id)
        &&& forall|i: int| 0 <= i < self.free_list.len() ==> self.free_list[i] != frame
    }

    /// The page that has to be written out before `frame` is bound anew:
    /// the one it holds, if it is dirty.
    pub open spec fn to_flush(self, frame: FrameId) -> Option<PageId> {
        if self.frames[frame as int].is_dirty {
            self.frames[frame as int].page_id
        } else {
            None
        }
    }

    /// What `begin_fetch` returns.
    pub open spec fn fetch_step(self, page_id: PageId) -> FetchStep {
        if self.resident(page_id) {
            FetchStep::Hit(PageFrameRef { page_id, frame_index: self.page_mapping[page_id] })
        } else {
            match self.chosen_frame() {
                Some(frame) => FetchStep::Miss { frame, flush: self.after_choice().to_flush(frame) },
                None => FetchStep::Saturated,
            }
        }
    }

    /// The pool after `begin_fetch`: on a hit one more pin on the page's
    /// frame, else the pool as the choice of a frame left it.
    pub open spec fn begun(self, page_id: PageId) -> PoolView {
        if self.resident(page_id) {
            self.pin(self.page_mapping[page_id])
        } else {
            self.after_choice()
        }
    }

    /// The guard that `fetch_page` returns: on a hit the frame that holds
    /// the page, on a miss the chosen frame, nothing if a miss finds every
    /// frame pinned.
    pub open spec fn fetched(self, page_id: PageId) -> Option<PageFrameRef> {
        if self.resident(page_id) {
            Some(PageFrameRef { page_id, frame_index: self.page_mapping[page_id] })
        } else {
            match self.chosen_frame() {
                Some(frame) => Some(PageFrameRef { page_id, frame_index: frame }),
                None => None,
            }
        }
    }

    /// The pool after `fetch_page`: on a hit one more pin on the page's
    /// frame, on a miss the chosen frame bound to a blank page, and the
    /// pool as the search for a frame left it if none was found.
    pub open spec fn fetch(self, page_id: PageId) -> PoolView {
        if self.resident(page_id) {
            self.pin(self.page_mapping[page_id])
        } else {
            match self.chosen_frame() {
                Some(frame) => self.after_choice().bind(frame, page_id, blank_bytes(page_id)),
                None => self.after_choice(),
            }
        }
    }

    /// The pool after `unpin_page`: one pin less on the page's frame, but
    /// never less than none, and the frame dirty if it was or if `is_dirty`
    /// says so; unchanged if the page is not resident.
    pub open spec fn unpin(self, page_id: PageId, is_dirty: bool) -> PoolView {
        if self.resident(page_id) {
            let frame = self.page_mapping[page_id] as int;
            let page = self.frames[frame];
            PoolView {
                frames: self.frames.update(
                    frame,
                    PageView {
                        pin_count: if page.pin_count > 0 {
                            (page.pin_count - 1) as nat
                        } else {
                            0
                        },
                        is_dirty: page.is_dirty || is_dirty,
                        ..page
                    },
                ),
                ..self
            }
        } else {
            self
        }
    }
}

/// Pinning a resident page's frame keeps the pool's invariant.
pub proof fn lemma_pin_keeps_inv(pool: PoolView, page_id: PageId)
    requires
        pool.inv(),
        pool.resident(page_id),
    ensures
        pool.pin(pool.page_mapping[page_id]).inv(),
{
    let frame = pool.page_mapping[page_id];
    let after = pool.pin(frame);
    assert forall|i: int| 0 <= i < after.free_list.len() implies (#[trigger] after.free_list[i])
        < after.frames.len() && after.frames[after.free_list[i] as int].page_id is None
        && after.frames[after.free_list[i] as int].pin_count == 0 by {
        assert(pool.free_list[i] != frame);
    }
}

/// Unpinning keeps the pool's invariant.
pub proof fn lemma_unpin_keeps_inv(pool: PoolView, page_id: PageId, is_dirty: bool)
    requires
        pool.inv(),
    ensures
        pool.unpin(page_id, is_dirty).inv(),
{
    if pool.resident(page_id) {
        let frame = pool.page_mapping[page_id];
        let after = pool.unpin(page_id, is_dirty);
        assert forall|i: int| 0 <= i < after.free_list.len() implies (
        #[trigger] after.free_list[i]) < after.frames.len()
            && after.frames[after.free_list[i] as int].page_id is None
            && after.frames[after.free_list[i] as int].pin_count == 0 by {
            assert(pool.free_list[i] != frame);
        }
    }
}

/// Choosing a frame keeps the pool's invariant. The chosen frame is in the
/// table, is not pinned, and is not on the free list that remains.
pub proof fn lemma_choice_keeps_inv(pool: PoolView)
    requires
        pool.inv(),
    ensures
        pool.after_choice().inv(),
        pool.after_choice().page_mapping == pool.page_mapping,
        pool.chosen_frame() is None <==> pool.free_list.len() == 0 && all_pinned(pool.frames),
        pool.chosen_frame() is None ==> pool.after_choice() == pool,
        pool.chosen_frame() matches Some(frame) ==> {
            &&& frame < pool.frames.len()
            &&& pool.after_choice().frames[frame as int].pin_count == 0
            &&& pool.after_choice().frames[frame as int].page_id == pool.frames[frame as int].page_id
            &&& forall|i: int|
                0 <= i < pool.after_choice().free_list.len() ==> pool.after_choice().free_list[i]
                    != frame
        },
{
    let after = pool.after_choice();
    if pool.free_list.len() > 0 {
        let frame = pool.free_list[0];
        assert forall|i: int| 0 <= i < after.free_list.len() implies (#[trigger] after.free_list[i])
            < after.frames.len() && after.frames[after.free_list[i] as int].page_id is None
            && after.frames[after.free_list[i] as int].pin_count == 0 && after.free_list[i]
            != frame by {
            assert(after.free_list[i] == pool.free_list[i + 1]);
        }
        assert forall|i: int, j: int| 0 <= i < j < after.free_list.len() implies after.free_list[i]
            != after.free_list[j] by {
            assert(after.free_list[i] == pool.free_list[i + 1]);
            assert(after.free_list[j] == pool.free_list[j + 1]);
        }
        assert(pool.frames[frame as int].pin_count == 0);
        assert(!all_pinned(pool.frames));
    } else if all_pinned(pool.frames) {
        assert(after == pool);
    } else {
        lemma_sweep_finds_unpinned(pool.frames, pool.hand as int);
        let frame = victim_of(pool.frames, pool.hand as int)->Some_0;
        assert forall|f: int| 0 <= f < pool.frames.len() implies (#[trigger] after.frames[f]).page_id
            == pool.frames[f].page_id && after.frames[f].pin_count == pool.frames[f].pin_count by {}
        assert forall|p: PageId| #[trigger] after.page_mapping.contains_key(p) implies
            after.page_mapping[p] < after.frames.len() && after.frames[after.page_mapping[p] as int].page_id
            == Some(p) by {
            assert(pool.page_mapping.contains_key(p));
        }
        assert forall|f: int, p: PageId|
            0 <= f < after.frames.len() && (#[trigger] after.frames[f]).page_id == Some(
                p,
            ) implies #[trigger] after.page_mapping.contains_key(p) && after.page_mapping[p]
            == f by {
            assert(pool.frames[f].page_id == Some(p));
            assert(pool.page_mapping.contains_key(p));
        }
    }
}

/// Binding a frame that is not on the free list to a page that is not
/// resident keeps the pool's invariant.
pub proof fn lemma_bind_keeps_inv(pool: PoolView, frame: FrameId, page_id: PageId, bytes: Seq<u8>)
    requires
        pool.inv(),
        frame < pool.frames.len(),
        !pool.resident(page_id),
        forall|i: int| 0 <= i < pool.free_list.len() ==> pool.free_list[i] != frame,
    ensures
        pool.bind(frame, page_id, bytes).inv(),
{
    let after = pool.bind(frame, page_id, bytes);
    assert forall|p: PageId| #[trigger] after.page_mapping.contains_key(p) implies
        after.page_mapping[p] < after.frames.len() && after.frames[after.page_mapping[p] as int].page_id
        == Some(p) by {
        if p != page_id {
            assert(pool.page_mapping.contains_key(p));
        }
    }
    assert forall|f: int, p: PageId|
        0 <= f < after.frames.len() && (#[trigger] after.frames[f]).page_id == Some(
            p,
        ) implies #[trigger] after.page_mapping.contains_key(p) && after.page_mapping[p] == f by {
        if f != frame {
            assert(pool.frames[f].page_id == Some(p));
            assert(pool.page_mapping.contains_key(p));
        }
    }
    assert forall|i: int| 0 <= i < after.free_list.len() implies (#[trigger] after.free_list[i])
        < after.frames.len() && after.frames[after.free_list[i] as int].page_id is None
        && after.frames[after.free_list[i] as int].pin_count == 0 by {
        assert(pool.free_list[i] != frame);
    }
}

/// The first half of a fetch keeps the pool's invariant.
pub proof fn lemma_pin_or_choice_keeps_inv(pool: PoolView, page_id: PageId)
    requires
        pool.inv(),
    ensures
        pool.begun(page_id).inv(),
{
    if pool.resident(page_id) {
        lemma_pin_keeps_inv(pool, page_id);
    } else {
        lemma_choice_keeps_inv(pool);
    }
}

/// A fetch keeps the pool's invariant.
pub proof fn lemma_fetch_keeps_inv(pool: PoolView, page_id: PageId)
    requires
        pool.inv(),
    ensures
        pool.fetch(page_id).inv(),
{
    if pool.resident(page_id) {
        lemma_pin_keeps_inv(pool, page_id);
    } else {
        lemma_choice_keeps_inv(pool);
        match pool.chosen_frame() {
            Some(frame) => {
                lemma_bind_keeps_inv(pool.after_choice(), frame, page_id, blank_bytes(page_id));
            },
            None => {},
        }
    }
}

/// One call on the pool.
pub enum PoolCall {
    /// `fetch_page(page_id)`.
    Fetch { page_id: PageId },
    /// `unpin_page(page_id, is_dirty)`.
    Unpin { page_id: PageId, is_dirty: bool },
}

impl PoolView {
    /// The pool after one call.
    pub open spec fn call(self, call: PoolCall) -> PoolView {
        match call {
            PoolCall::Fetch { page_id } => self.fetch(page_id),
            PoolCall::Unpin { page_id, is_dirty } => self.unpin(page_id, is_dirty),
        }
    }

    /// The pool after a sequence of calls, made in order.
    pub open spec fn run(self, calls: Seq<PoolCall>) -> PoolView
        decreases calls.len(),
    {
        if calls.len() == 0 {
            self
        } else {
            self.run(calls.drop_last()).call(calls.last())
        }
    }
}

/// Whatever fetches and unpins a pool has served, in whatever order, its
/// invariant holds, it has as many frames as it started with, and no
/// frame's pin count is negative.
pub proof fn lemma_calls_keep_inv(pool: PoolView, calls: Seq<PoolCall>)
    requires
        pool.inv(),
    ensures
        pool.run(calls).inv(),
        pool.run(calls).frames.len() == pool.frames.len(),
        forall|f: int|
            0 <= f < pool.run(calls).frames.len() ==> (#[trigger] pool.run(calls).frames[f]).pin_count
                >= 0,
    decreases calls.len(),
{
    if calls.len() > 0 {
        let before = pool.run(calls.drop_last());
        lemma_calls_keep_inv(pool, calls.drop_last());
        match calls.last() {
            PoolCall::Fetch { page_id } => {
                lemma_fetch_keeps_inv(before, page_id);
                lemma_choice_keeps_inv(before);
            },
            PoolCall::Unpin { page_id, is_dirty } => {
                lemma_unpin_keeps_inv(before, page_id, is_dirty);
            },
        }
    }
}

/// What a successful fetch leaves behind: the page is resident in the frame
/// that the guard names, with one pin more than it had.
pub proof fn lemma_fetch_pins(pool: PoolView, page_id: PageId)
    requires
        pool.inv(),
        pool.fetched(page_id) is Some,
    ensures
        pool.fetch(page_id).resident(page_id),
        pool.fetch(page_id).page_mapping[page_id] == pool.fetched(page_id)->Some_0.frame_index,
        pool.fetch(page_id).pin_count(page_id) == pool.pin_count(page_id) + 1,
{
    lemma_choice_keeps_inv(pool);
}

/// Fetching a page twice with nothing in between gives two guards for the
/// same frame and raises the page's pin count by one each time; releasing
/// both brings the count back to what it was, which is zero for a page that
/// was not pinned before.
pub proof fn lemma_fetch_twice_then_release(pool: PoolView, page_id: PageId)
    requires
        pool.inv(),
        pool.fetched(page_id) is Some,
    ensures
        ({
            let once = pool.fetch(page_id);
            let twice = once.fetch(page_id);
            let released = twice.unpin(page_id, false).unpin(page_id, false);
            &&& once.fetched(page_id) == pool.fetched(page_id)
            &&& once.pin_count(page_id) == pool.pin_count(page_id) + 1
            &&& twice.pin_count(page_id) == pool.pin_count(page_id) + 2
            &&& released.pin_count(page_id) == pool.pin_count(page_id)
            &&& released.resident(page_id)
            &&& released.page_mapping[page_id] == pool.fetched(page_id)->Some_0.frame_index
        }),
{
    let once = pool.fetch(page_id);
    lemma_fetch_pins(pool, page_id);
    lemma_fetch_keeps_inv(pool, page_id);
    lemma_fetch_pins(once, page_id);
}

/// With every frame pinned, a fetch of a page that is not resident returns
/// nothing and changes nothing.
pub proof fn lemma_fetch_fails_when_all_pinned(pool: PoolView, page_id: PageId)
    requires
        pool.inv(),
        all_pinned(pool.frames),
        !pool.resident(page_id),
    ensures
        pool.fetched(page_id) is None,
        pool.fetch(page_id) == pool,
{
    lemma_choice_keeps_inv(pool);
    if pool.free_list.len() > 0 {
        assert(pool.frames[pool.free_list[0] as int].pin_count == 0);
    }
}

/// A fetch is its first half followed, on a miss, by binding the chosen
/// frame to a blank page; and the frame that the first half chooses can
/// always be bound.
pub proof fn lemma_fetch_in_two_halves(pool: PoolView, page_id: PageId)
    requires
        pool.inv(),
    ensures
        match pool.fetch_step(page_id) {
            FetchStep::Hit(guard) => pool.fetch(page_id) == pool.begun(page_id) && pool.fetched(
                page_id,
            ) == Some(guard),
            FetchStep::Saturated => pool.fetch(page_id) == pool && pool.begun(page_id) == pool
                && pool.fetched(page_id) is None,
            FetchStep::Miss { frame, flush } => pool.begun(page_id).can_bind(frame, page_id)
                && pool.fetch(page_id) == pool.begun(page_id).bind(
                frame,
                page_id,
                blank_bytes(page_id),
            ) && pool.fetched(page_id) == Some(PageFrameRef { page_id, frame_index: frame }),
        },
{
    lemma_choice_keeps_inv(pool);
}

impl View for BufferPoolState {
    type V = PoolView;

    closed spec fn view(&self) -> PoolView {
        PoolView {
            frames: frame_views(self.frames@),
            page_mapping: self.page_mapping@,
            free_list: self.free_list@,
            hand: self.replacer@.hand,
        }
    }
}

impl BufferPoolState {
    /// The clock turns over exactly the frames of the table.
    pub closed spec fn clock_fits(&self) -> bool {
        &&& self.replacer.wf()
        &&& self.replacer@.size == self.frames@.len()
    }

    /// The state is one that the pool's operations leave behind.
    pub open spec fn wf(&self) -> bool {
        &&& self@.inv()
        &&& self.clock_fits()
    }
}

impl View for BufferPoolManager {
    type V = PoolView;

    closed spec fn view(&self) -> PoolView {
        self.state@
    }
}

impl BufferPoolManager {
    /// The clock turns over exactly the frames of the table.
    pub closed spec fn clock_fits(&self) -> bool {
        self.state.clock_fits()
    }

    /// The pool is one that its operations leave behind.
    pub open spec fn wf(&self) -> bool {
        &&& self@.inv()
        &&& self.clock_fits()
    }

    /// Creates a pool of `pool_size` frames, all of them free.
    pub fn new(pool_size: usize) -> (pool: Self)
        ensures
            pool@ == PoolView::empty(pool_size as nat),
            pool.wf(),
    {
        let mut frames: Vec<Page> = Vec::with_capacity(pool_size);
        let mut free_list: VecDeque<FrameId> = VecDeque::new();
        let mut i: usize = 0;
        while i < pool_size
            invariant
                i <= pool_size,
                frames@.len() == i,
                free_list@.len() == i,
                forall|k: int|
                    0 <= k < i ==> (#[trigger] frames@[k])@ == (PageView {
                        page_id: None,
                        ..PageView::fresh(0, PageType::NodeStore)
                    }),
                forall|k: int| 0 <= k < i ==> #[trigger] free_list@[k] == k,
            decreases pool_size - i,
        {
            let mut page = Page::default();
            page.page_id = None;
            frames.push(page);
            free_list.push_back(i);
            i += 1;
        }
        let state = BufferPoolState {
            frames,
            page_mapping: HashMap::new(),
            free_list,
            replacer: ClockReplacer::new(pool_size),
        };
        proof {
            let want = PoolView::empty(pool_size as nat);
            assert(state@.frames =~= want.frames);
            assert(state@.free_list =~= want.free_list);
            assert(state@.page_mapping =~= want.page_mapping);
        }
        BufferPoolManager { state }
    }

    /// Number of frames in the pool.
    pub fn pool_size(&self) -> (size: usize)
        ensures
            size == self@.frames.len(),
    {
        self.state.frames.len()
    }

    /// Number of pins on `page_id`, or `None` if the page is not resident.
    pub fn pin_count(&self, page_id: PageId) -> (count: Option<u32>)
        requires
            self.wf(),
        ensures
            count is Some <==> self@.resident(page_id),
            count matches Some(c) ==> c == self@.pin_count(page_id),
    {
        match self.state.page_mapping.get(&page_id) {
            Some(frame_id) => {
                assert(self@.frames[*frame_id as int] == self.state.frames@[*frame_id as int]@);
                Some(self.state.frames[*frame_id].pin_count)
            },
            None => None,
        }
    }

    /// Fetches `page_id` and pins it.
    ///
    /// If the page is resident, its frame gets one more pin and its
    /// reference bit is set. If not, a frame is taken from the free list
    /// or, when that is empty, from the clock; the page that the frame
    /// held is dropped from the mapping, and the frame is bound to
    /// `page_id` as a blank page with one pin. Returns `None` exactly if
    /// the page is not resident, no frame is free and every frame is
    /// pinned; the pool is then unchanged.
    ///
    /// This is the whole fetch of a pool that has no backing store: what
    /// the chosen frame held is overwritten, dirty or not. A caller with a
    /// store fetches in two halves, [`Self::begin_fetch`] and
    /// [`Self::complete_fetch`], and does its writing and reading between
    /// them.
    pub fn fetch_page(&mut self, page_id: PageId) -> (guard: Option<PageFrameRef>)
        requires
            old(self).wf(),
            old(self)@.pin_count(page_id) < u32::MAX,
        ensures
            final(self).wf(),
            final(self)@ == old(self)@.fetch(page_id),
            guard == old(self)@.fetched(page_id),
            guard is None <==> !old(self)@.resident(page_id) && old(self)@.free_list.len() == 0
                && all_pinned(old(self)@.frames),
            guard is None ==> final(self)@ == old(self)@,
            guard matches Some(g) ==> {
                &&& g.page_id == page_id
                &&& g.frame_index < final(self)@.frames.len()
                &&& final(self)@.resident(page_id)
                &&& final(self)@.page_mapping[page_id] == g.frame_index
                &&& final(self)@.pin_count(page_id) == old(self)@.pin_count(page_id) + 1
                &&& final(self)@.frames[g.frame_index as int].ref_bit
            },
    {
        proof {
            lemma_fetch_keeps_inv(self@, page_id);
            lemma_choice_keeps_inv(self@);
        }
        let hit: Option<FrameId> = match self.state.page_mapping.get(&page_id) {
            Some(frame_id) => Some(*frame_id),
            None => None,
        };
        if let Some(frame_id) = hit {
            assert(self@.frames[frame_id as int] == self.state.frames@[frame_id as int]@);
            self.state.frames[frame_id].pin_count += 1;
            self.state.frames[frame_id].ref_bit = true;
            assert(self@.frames =~= old(self)@.pin(frame_id).frames);
            return Some(PageFrameRef { page_id, frame_index: frame_id });
        }
        let frame_id = match Self::find_free_frame(&mut self.state) {
            Some(frame_id) => frame_id,
            None => { return None; },
        };
        Self::bind_frame(&mut self.state, frame_id, page_id, Page::new(page_id, PageType::NodeStore));
        Some(PageFrameRef { page_id, frame_index: frame_id })
    }

    /// Finds the frame that a miss will use: the head of the free list, or,
    /// if that list is empty, the clock's victim.
    fn find_free_frame(state: &mut BufferPoolState) -> (frame: Option<FrameId>)
        requires
            old(state).wf(),
        ensures
            final(state).wf(),
            frame == old(state)@.chosen_frame(),
            final(state)@ == old(state)@.after_choice(),
    {
        proof {
            lemma_choice_keeps_inv(state@);
        }
        if let Some(frame_id) = state.free_list.pop_front() {
            return Some(frame_id);
        }
        state.replacer.victim(state.frames.as_mut_slice())
    }

    /// Gives `frame_id` to `page_id`, with `page` as its content.
    fn bind_frame(state: &mut BufferPoolState, frame_id: FrameId, page_id: PageId, page: Page)
        requires
            old(state).wf(),
            frame_id < old(state)@.frames.len(),
            !old(state)@.resident(page_id),
            forall|i: int|
                0 <= i < old(state)@.free_list.len() ==> old(state)@.free_list[i] != frame_id,
        ensures
            final(state).wf(),
            final(state)@ == old(state)@.bind(frame_id, page_id, page@.bytes),
    {
        proof {
            lemma_bind_keeps_inv(state@, frame_id, page_id, page@.bytes);
        }
        assert(state@.frames[frame_id as int] == state.frames@[frame_id as int]@);
        let old_page_id = state.frames[frame_id].page_id;
        if let Some(old_pid) = old_page_id {
            state.page_mapping.remove(&old_pid);
        }
        let mut page = page;
        page.page_id = Some(page_id);
        page.pin_count = 1;
        page.is_dirty = false;
        page.ref_bit = true;
        state.frames[frame_id] = page;
        state.page_mapping.insert(page_id, frame_id);
        proof {
            let want = old(state)@.bind(frame_id, page_id, page@.bytes);
            assert(state@.frames =~= want.frames);
            assert(state@.page_mapping =~= want.page_mapping);
        }
    }

    /// The first half of a fetch, for a caller that has a backing store.
    ///
    /// A resident page is pinned as in [`Self::fetch_page`]. For a page that
    /// is not resident a frame is chosen but not yet bound: the caller
    /// writes out the page named by `flush`, reads the bytes of `page_id`,
    /// and hands them to [`Self::complete_fetch`]. A caller whose store
    /// fails simply does not complete: the page that the frame held stays
    /// resident, mapped and dirty, and nothing is lost.
    pub fn begin_fetch(&mut self, page_id: PageId) -> (step: FetchStep)
        requires
            old(self).wf(),
            old(self)@.pin_count(page_id) < u32::MAX,
        ensures
            final(self).wf(),
            step == old(self)@.fetch_step(page_id),
            final(self)@ == old(self)@.begun(page_id),
            step is Saturated <==> !old(self)@.resident(page_id) && old(self)@.free_list.len() == 0
                && all_pinned(old(self)@.frames),
            step matches FetchStep::Miss { frame, flush } ==> final(self)@.can_bind(frame, page_id)
                && (flush matches Some(victim) ==> final(self)@.resident(victim)
                && final(self)@.page_mapping[victim] == frame),
    {
        proof {
            lemma_pin_or_choice_keeps_inv(self@, page_id);
            lemma_choice_keeps_inv(self@);
        }
        let hit: Option<FrameId> = match self.state.page_mapping.get(&page_id) {
            Some(frame_id) => Some(*frame_id),
            None => None,
        };
        if let Some(frame_id) = hit {
            assert(self@.frames[frame_id as int] == self.state.frames@[frame_id as int]@);
            self.state.frames[frame_id].pin_count += 1;
            self.state.frames[frame_id].ref_bit = true;
            assert(self@.frames =~= old(self)@.pin(frame_id).frames);
            return FetchStep::Hit(PageFrameRef { page_id, frame_index: frame_id });
        }
        match Self::find_free_frame(&mut self.state) {
            Some(frame) => {
                assert(self@.frames[frame as int] == self.state.frames@[frame as int]@);
                let flush = if self.state.frames[frame].is_dirty {
                    self.state.frames[frame].page_id
                } else {
                    None
                };
                FetchStep::Miss { frame, flush }
            },
            None => FetchStep::Saturated,
        }
    }

    /// The second half of a fetch: binds `frame_id` to `page_id` with the
    /// bytes that the store returned, or with a blank page if `content` is
    /// `None`, and pins it. Returns `None`, with the pool unchanged, unless
    /// the frame can be bound: it must be a frame of the pool that is
    /// neither pinned nor on the free list, and the page must not be
    /// resident.
    pub fn complete_fetch(
        &mut self,
        frame_id: FrameId,
        page_id: PageId,
        content: Option<[u8; PAGE_SIZE]>,
    ) -> (guard: Option<PageFrameRef>)
        requires
            old(self).wf(),
        ensures
            final(self).wf(),
            guard is Some <==> old(self)@.can_bind(frame_id, page_id),
            guard is Some ==> guard == Some(PageFrameRef { page_id, frame_index: frame_id })
                && final(self)@ == old(self)@.bind(
                frame_id,
                page_id,
                match content {
                    Some(bytes) => bytes@,
                    None => blank_bytes(page_id),
                },
            ),
            guard is None ==> final(self)@ == old(self)@,
    {
        if frame_id >= self.state.frames.len() {
            return None;
        }
        assert(self@.frames[frame_id as int] == self.state.frames@[frame_id as int]@);
        if self.state.frames[frame_id].pin_count > 0 {
            return None;
        }
        if self.state.page_mapping.contains_key(&page_id) {
            return None;
        }
        let mut i: usize = 0;
        while i < self.state.free_list.len()
            invariant
                i <= self.state.free_list@.len(),
                forall|k: int| 0 <= k < i ==> self.state.free_list@[k] != frame_id,
                *self == *old(self),
                self.wf(),
            decreases self.state.free_list@.len() - i,
        {
            if self.state.free_list[i] == frame_id {
                assert(self@.free_list[i as int] == frame_id);
                return None;
            }
            i += 1;
        }
        let page = match content {
            Some(bytes) => Page::from_bytes(bytes),
            None => Page::new(page_id, PageType::NodeStore),
        };
        Self::bind_frame(&mut self.state, frame_id, page_id, page);
        Some(PageFrameRef { page_id, frame_index: frame_id })
    }

    /// The page in frame `frame_id`, or `None` if the pool has no such
    /// frame.
    pub fn frame(&self, frame_id: FrameId) -> (page: Option<&Page>)
        ensures
            page is Some <==> frame_id < self@.frames.len(),
            page matches Some(p) ==> p@ == self@.frames[frame_id as int],
    {
        if frame_id < self.state.frames.len() {
            Some(&self.state.frames[frame_id])
        } else {
            None
        }
    }

    /// Gives up one pin on `page_id` and, if `is_dirty`, marks its frame
    /// dirty. The pin count never goes below zero, the dirty flag is never
    /// cleared, and a page that is not resident leaves the pool unchanged.
    pub fn unpin_page(&mut self, page_id: PageId, is_dirty: bool)
        requires
            old(self).wf(),
        ensures
            final(self).wf(),
            final(self)@ == old(self)@.unpin(page_id, is_dirty),
            final(self)@.pin_count(page_id) == if old(self)@.pin_count(page_id) > 0 {
                old(self)@.pin_count(page_id) - 1
            } else {
                0
            },
    {
        proof {
            lemma_unpin_keeps_inv(self@, page_id, is_dirty);
        }
        let hit: Option<FrameId> = match self.state.page_mapping.get(&page_id) {
            Some(frame_id) => Some(*frame_id),
            None => None,
        };
        if let Some(frame_id) = hit {
            assert(self@.frames[frame_id as int] == self.state.frames@[frame_id as int]@);
            if self.state.frames[frame_id].pin_count > 0 {
                self.state.frames[frame_id].pin_count -= 1;
            }
            if is_dirty {
                self.state.frames[frame_id].is_dirty = true;
            }
            assert(self@.frames =~= old(self)@.unpin(page_id, is_dirty).frames);
        }
    }

    /// The page in the frame that `guard` names, or `None` if the pool has
    /// no such frame.
    pub fn page(&self, guard: &PageFrameRef) -> (page: Option<&Page>)
        ensures
            page is Some <==> guard.frame_index < self@.frames.len(),
            page matches Some(p) ==> p@ == self@.frames[guard.frame_index as int],
    {
        if guard.frame_index < self.state.frames.len() {
            Some(&self.state.frames[guard.frame_index])
        } else {
            None
        }
    }

    /// Ends the pin that `guard` stands for: one pin less on its page, the
    /// dirty flag untouched.
    pub fn release(&mut self, guard: PageFrameRef)
        requires
            old(self).wf(),
        ensures
            final(self).wf(),
            final(self)@ == old(self)@.unpin(guard.page_id, false),
    {
        self.unpin_page(guard.page_id, false);
    }
}

} // verus!
