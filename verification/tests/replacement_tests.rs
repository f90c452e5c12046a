use paging::page::{Page, PageType};
use paging::replacement::ClockReplacer;

fn frames_with(pins_and_bits: &[(u32, bool)]) -> Vec<Page> {
    let mut frames = Vec::new();
    for (i, (pin_count, ref_bit)) in pins_and_bits.iter().enumerate() {
        let mut page = Page::new(i as u64, PageType::NodeStore);
        page.pin_count = *pin_count;
        page.ref_bit = *ref_bit;
        frames.push(page);
    }
    frames
}

fn bits(frames: &[Page]) -> Vec<bool> {
    frames.iter().map(|p| p.ref_bit).collect()
}

#[test]
fn clock_clears_set_bits_and_takes_the_first_clear_frame() {
    let mut frames = frames_with(&[(0, true), (0, true), (0, false)]);
    let mut clock = ClockReplacer::new(3);
    assert_eq!(clock.victim(&mut frames), Some(2));
    assert_eq!(bits(&frames), vec![false, false, false]);
    // The hand is back at frame 0: that is where the next sweep stops.
    assert_eq!(clock.victim(&mut frames), Some(0));
    assert_eq!(clock.victim(&mut frames), Some(1));
    assert_eq!(clock.victim(&mut frames), Some(2));
}

#[test]
fn clock_takes_a_second_lap_when_every_bit_is_set() {
    let mut frames = frames_with(&[(0, true), (0, true), (0, true)]);
    let mut clock = ClockReplacer::new(3);
    assert_eq!(clock.victim(&mut frames), Some(0));
    assert_eq!(bits(&frames), vec![false, false, false]);
    assert_eq!(clock.victim(&mut frames), Some(1));
}

#[test]
fn clock_never_takes_or_touches_a_pinned_frame() {
    let mut frames = frames_with(&[(1, false), (2, true), (0, true), (3, false)]);
    let mut clock = ClockReplacer::new(4);
    assert_eq!(clock.victim(&mut frames), Some(2));
    assert_eq!(bits(&frames), vec![false, true, false, false]);
    assert_eq!(frames[0].pin_count, 1);
    assert_eq!(frames[1].pin_count, 2);
    assert_eq!(frames[3].pin_count, 3);
    // The hand stands at frame 3; frame 2 is the only candidate again.
    assert_eq!(clock.victim(&mut frames), Some(2));
}

#[test]
fn clock_reports_no_victim_only_if_every_frame_is_pinned() {
    let mut frames = frames_with(&[(1, true), (1, false), (5, true)]);
    let mut clock = ClockReplacer::new(3);
    assert_eq!(clock.victim(&mut frames), None);
    assert_eq!(bits(&frames), vec![true, false, true]);
    frames[1].pin_count = 0;
    // Nothing moved the hand: the sweep starts at frame 0 again.
    assert_eq!(clock.victim(&mut frames), Some(1));
}

#[test]
fn clock_finds_the_unpinned_frame_behind_which_a_pinned_one_closes_the_lap() {
    let mut frames = frames_with(&[(0, true), (1, true)]);
    let mut clock = ClockReplacer::new(2);
    assert_eq!(clock.victim(&mut frames), Some(0));
    assert_eq!(bits(&frames), vec![false, true]);
}

#[test]
fn clock_over_no_frames_has_no_victim() {
    let mut frames: Vec<Page> = Vec::new();
    let mut clock = ClockReplacer::new(0);
    assert_eq!(clock.victim(&mut frames), None);
    assert_eq!(clock.victim(&mut frames), None);
}

#[test]
fn clock_over_one_frame() {
    let mut frames = frames_with(&[(0, true)]);
    let mut clock = ClockReplacer::new(1);
    assert_eq!(clock.victim(&mut frames), Some(0));
    assert_eq!(bits(&frames), vec![false]);
    frames[0].pin_count = 1;
    assert_eq!(clock.victim(&mut frames), None);
}

#[test]
fn clock_leaves_bytes_and_bookkeeping_alone() {
    let mut frames = frames_with(&[(0, true), (0, false)]);
    frames[0].is_dirty = true;
    assert!(frames[0].write_at(100, &[1, 2, 3]));
    let mut clock = ClockReplacer::new(2);
    assert_eq!(clock.victim(&mut frames), Some(1));
    assert!(frames[0].is_dirty);
    assert_eq!(frames[0].page_id, Some(0));
    assert_eq!(frames[0].read_at(100, 3), Some(&[1u8, 2, 3][..]));
}
