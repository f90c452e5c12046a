use paging::buffer_pool_manager::{BufferPoolManager, FetchStep, PageFrameRef};
use paging::page::{PageHeader, PageType};
use paging::page_constants::PAGE_SIZE;

fn guard(page_id: u64, frame_index: usize) -> PageFrameRef {
    PageFrameRef { page_id, frame_index }
}

#[test]
fn new_pool_holds_nothing() {
    let pool = BufferPoolManager::new(4);
    assert_eq!(pool.pool_size(), 4);
    assert_eq!(pool.pin_count(0), None);
    for frame in 0..4 {
        let page = pool.frame(frame).unwrap();
        assert_eq!(page.page_id, None);
        assert_eq!(page.pin_count, 0);
        assert!(!page.is_dirty);
    }
    assert!(pool.frame(4).is_none());
}

#[test]
fn misses_take_free_frames_in_order() {
    let mut pool = BufferPoolManager::new(3);
    assert_eq!(pool.fetch_page(10), Some(guard(10, 0)));
    assert_eq!(pool.fetch_page(20), Some(guard(20, 1)));
    assert_eq!(pool.fetch_page(30), Some(guard(30, 2)));
    assert_eq!(pool.pin_count(10), Some(1));
    assert_eq!(pool.pin_count(20), Some(1));
    assert_eq!(pool.pin_count(30), Some(1));
}

#[test]
fn a_miss_binds_a_blank_page() {
    let mut pool = BufferPoolManager::new(1);
    let g = pool.fetch_page(77).unwrap();
    let page = pool.page(&g).unwrap();
    assert_eq!(page.page_id, Some(77));
    assert_eq!(page.get_header(), Some(PageHeader::new(77, PageType::NodeStore)));
    assert!(page.get_data_segment().iter().all(|b| *b == 0));
    assert_eq!(page.pin_count, 1);
    assert!(!page.is_dirty);
    assert!(page.ref_bit);
}

#[test]
fn fetching_twice_pins_the_same_frame_twice() {
    let mut pool = BufferPoolManager::new(2);
    let first = pool.fetch_page(5).unwrap();
    let second = pool.fetch_page(5).unwrap();
    assert_eq!(first, second);
    assert_eq!(first.frame_index, 0);
    assert_eq!(pool.pin_count(5), Some(2));
    pool.release(first);
    assert_eq!(pool.pin_count(5), Some(1));
    pool.release(second);
    assert_eq!(pool.pin_count(5), Some(0));
}

#[test]
fn page_zero_stays_resident_while_other_frames_fill() {
    let mut pool = BufferPoolManager::new(2);
    assert_eq!(pool.fetch_page(0), Some(guard(0, 0)));
    assert_eq!(pool.fetch_page(1), Some(guard(1, 1)));
    assert_eq!(pool.fetch_page(0), Some(guard(0, 0)));
    assert_eq!(pool.pin_count(0), Some(2));
}

#[test]
fn a_hit_sets_the_reference_bit() {
    let mut pool = BufferPoolManager::new(2);
    pool.fetch_page(1).unwrap();
    pool.fetch_page(2).unwrap();
    pool.unpin_page(1, false);
    pool.unpin_page(2, false);
    // The sweep clears both bits and evicts page 1 from frame 0.
    assert_eq!(pool.fetch_page(3), Some(guard(3, 0)));
    assert!(!pool.frame(1).unwrap().ref_bit);
    assert_eq!(pool.fetch_page(2), Some(guard(2, 1)));
    assert!(pool.frame(1).unwrap().ref_bit);
}

#[test]
fn fetch_fails_when_every_frame_is_pinned() {
    let mut pool = BufferPoolManager::new(3);
    pool.fetch_page(1).unwrap();
    pool.fetch_page(2).unwrap();
    pool.fetch_page(3).unwrap();
    assert_eq!(pool.fetch_page(4), None);
    assert_eq!(pool.pin_count(4), None);
    assert_eq!(pool.pin_count(1), Some(1));
    assert_eq!(pool.pin_count(2), Some(1));
    assert_eq!(pool.pin_count(3), Some(1));
    // A resident page can still be fetched.
    assert_eq!(pool.fetch_page(2), Some(guard(2, 1)));
    // And after one release the miss succeeds.
    pool.unpin_page(3, false);
    assert_eq!(pool.fetch_page(4), Some(guard(4, 2)));
    assert_eq!(pool.pin_count(3), None);
}

#[test]
fn pool_without_frames_serves_nothing() {
    let mut pool = BufferPoolManager::new(0);
    assert_eq!(pool.pool_size(), 0);
    assert_eq!(pool.fetch_page(1), None);
    pool.unpin_page(1, true);
    assert_eq!(pool.begin_fetch(1), FetchStep::Saturated);
    assert_eq!(pool.complete_fetch(0, 1, None), None);
}

#[test]
fn eviction_unmaps_the_victim_and_never_takes_a_pinned_frame() {
    let mut pool = BufferPoolManager::new(3);
    pool.fetch_page(1).unwrap();
    pool.fetch_page(2).unwrap();
    pool.fetch_page(3).unwrap();
    pool.unpin_page(2, false);
    assert_eq!(pool.fetch_page(4), Some(guard(4, 1)));
    assert_eq!(pool.pin_count(2), None);
    assert_eq!(pool.pin_count(1), Some(1));
    assert_eq!(pool.pin_count(3), Some(1));
    assert_eq!(pool.pin_count(4), Some(1));
    assert_eq!(pool.frame(1).unwrap().page_id, Some(4));
    assert_eq!(pool.frame(1).unwrap().get_page_id(), 4);
}

#[test]
fn unpin_never_goes_below_zero() {
    let mut pool = BufferPoolManager::new(1);
    pool.fetch_page(9).unwrap();
    pool.unpin_page(9, false);
    pool.unpin_page(9, false);
    pool.unpin_page(9, false);
    assert_eq!(pool.pin_count(9), Some(0));
    assert_eq!(pool.fetch_page(9), Some(guard(9, 0)));
    assert_eq!(pool.pin_count(9), Some(1));
}

#[test]
fn unpin_of_a_page_that_is_not_resident_changes_nothing() {
    let mut pool = BufferPoolManager::new(2);
    pool.fetch_page(1).unwrap();
    pool.unpin_page(2, true);
    assert_eq!(pool.pin_count(1), Some(1));
    assert_eq!(pool.pin_count(2), None);
    assert!(!pool.frame(0).unwrap().is_dirty);
    assert!(!pool.frame(1).unwrap().is_dirty);
}

#[test]
fn dirty_flag_is_set_by_unpin_and_not_cleared_by_it() {
    let mut pool = BufferPoolManager::new(1);
    let first = pool.fetch_page(1).unwrap();
    pool.fetch_page(1).unwrap();
    pool.unpin_page(1, true);
    assert!(pool.page(&first).unwrap().is_dirty);
    pool.unpin_page(1, false);
    assert!(pool.page(&first).unwrap().is_dirty);
    pool.release(first);
    assert!(pool.frame(0).unwrap().is_dirty);
}

#[test]
fn rebinding_a_frame_clears_the_dirty_flag() {
    let mut pool = BufferPoolManager::new(1);
    pool.fetch_page(1).unwrap();
    pool.unpin_page(1, true);
    assert_eq!(pool.fetch_page(2), Some(guard(2, 0)));
    assert!(!pool.frame(0).unwrap().is_dirty);
}

#[test]
fn pin_counts_stay_consistent_over_a_long_run() {
    let mut pool = BufferPoolManager::new(3);
    let mut held: Vec<u64> = Vec::new();
    let mut seed: u64 = 12345;
    for _ in 0..2000 {
        seed = seed.wrapping_mul(6364136223846793005).wrapping_add(1442695040888963407);
        let page_id = (seed >> 33) % 6;
        if (seed >> 20) % 3 == 0 {
            if pool.fetch_page(page_id).is_some() {
                held.push(page_id);
            }
        } else {
            pool.unpin_page(page_id, (seed >> 10) % 2 == 0);
            if let Some(at) = held.iter().position(|p| *p == page_id) {
                held.remove(at);
            }
        }
        let mut resident = 0;
        for id in 0..6 {
            if let Some(count) = pool.pin_count(id) {
                resident += 1;
                assert_eq!(count as usize, held.iter().filter(|p| **p == id).count());
            } else {
                assert_eq!(held.iter().filter(|p| **p == id).count(), 0);
            }
        }
        assert!(resident <= 3);
    }
}

#[test]
fn page_of_a_guard_for_a_frame_that_does_not_exist() {
    let pool = BufferPoolManager::new(2);
    assert!(pool.page(&guard(1, 2)).is_none());
    assert!(pool.page(&guard(1, usize::MAX)).is_none());
    assert!(pool.page(&guard(1, 1)).is_some());
}

#[test]
fn begin_fetch_on_a_resident_page_is_a_hit() {
    let mut pool = BufferPoolManager::new(2);
    pool.fetch_page(8).unwrap();
    assert_eq!(pool.begin_fetch(8), FetchStep::Hit(guard(8, 0)));
    assert_eq!(pool.pin_count(8), Some(2));
}

#[test]
fn begin_fetch_chooses_a_frame_and_complete_fetch_binds_it() {
    let mut pool = BufferPoolManager::new(2);
    assert_eq!(pool.begin_fetch(8), FetchStep::Miss { frame: 0, flush: None });
    assert_eq!(pool.pin_count(8), None);
    let mut stored = [0u8; PAGE_SIZE];
    stored[8] = 8;
    stored[20] = 32;
    stored[4000] = 0xEE;
    assert_eq!(pool.complete_fetch(0, 8, Some(stored)), Some(guard(8, 0)));
    assert_eq!(pool.pin_count(8), Some(1));
    let page = pool.frame(0).unwrap();
    assert_eq!(page.get_data()[..], stored[..]);
    assert_eq!(page.page_id, Some(8));
    assert!(page.ref_bit);
    assert!(!page.is_dirty);
    // The next miss takes the next free frame.
    assert_eq!(pool.begin_fetch(9), FetchStep::Miss { frame: 1, flush: None });
    assert_eq!(pool.complete_fetch(1, 9, None), Some(guard(9, 1)));
    assert_eq!(
        pool.frame(1).unwrap().get_header(),
        Some(PageHeader::new(9, PageType::NodeStore))
    );
}

#[test]
fn begin_fetch_names_the_dirty_victim() {
    let mut pool = BufferPoolManager::new(2);
    pool.fetch_page(1).unwrap();
    pool.fetch_page(2).unwrap();
    pool.unpin_page(1, true);
    pool.unpin_page(2, false);
    assert_eq!(pool.begin_fetch(3), FetchStep::Miss { frame: 0, flush: Some(1) });
    // Until the fetch is completed the victim stays resident and dirty.
    assert_eq!(pool.pin_count(1), Some(0));
    assert!(pool.frame(0).unwrap().is_dirty);
    assert_eq!(pool.complete_fetch(0, 3, None), Some(guard(3, 0)));
    assert_eq!(pool.pin_count(1), None);
    // A clean victim needs no flush.
    pool.unpin_page(3, false);
    assert_eq!(pool.begin_fetch(4), FetchStep::Miss { frame: 1, flush: None });
}

#[test]
fn begin_fetch_reports_saturation() {
    let mut pool = BufferPoolManager::new(1);
    pool.fetch_page(1).unwrap();
    assert_eq!(pool.begin_fetch(2), FetchStep::Saturated);
    assert_eq!(pool.pin_count(1), Some(1));
}

#[test]
fn a_fetch_that_is_not_completed_loses_nothing() {
    let mut pool = BufferPoolManager::new(2);
    pool.fetch_page(1).unwrap();
    pool.unpin_page(1, true);
    // Frame 1 is chosen from the free list and then left alone.
    assert_eq!(pool.begin_fetch(2), FetchStep::Miss { frame: 1, flush: None });
    // The clock finds it again once the free list is empty.
    pool.fetch_page(1).unwrap();
    assert_eq!(pool.fetch_page(3), Some(guard(3, 1)));
    assert_eq!(pool.pin_count(1), Some(1));
}

#[test]
fn complete_fetch_refuses_what_cannot_be_bound() {
    let mut pool = BufferPoolManager::new(3);
    pool.fetch_page(1).unwrap();
    // No such frame.
    assert_eq!(pool.complete_fetch(3, 2, None), None);
    // The frame is pinned.
    assert_eq!(pool.complete_fetch(0, 2, None), None);
    // The frame is on the free list.
    assert_eq!(pool.complete_fetch(1, 2, None), None);
    assert_eq!(pool.complete_fetch(2, 2, None), None);
    // The page is resident.
    pool.unpin_page(1, false);
    assert_eq!(pool.begin_fetch(5), FetchStep::Miss { frame: 1, flush: None });
    assert_eq!(pool.complete_fetch(1, 1, None), None);
    assert_eq!(pool.pin_count(1), Some(0));
    assert_eq!(pool.pin_count(2), None);
    assert_eq!(pool.frame(1).unwrap().page_id, None);
    // What can be bound is bound.
    assert_eq!(pool.complete_fetch(1, 5, None), Some(guard(5, 1)));
    // An unpinned resident frame can be given to another page.
    assert_eq!(pool.complete_fetch(0, 6, None), Some(guard(6, 0)));
    assert_eq!(pool.pin_count(1), None);
}
