use kitsune_rendercore::scheduler::FrameScheduler;

#[test]
fn frame_budget_at_sixty_fps() {
    assert_eq!(FrameScheduler::new(60).frame_budget(), 16_666_666);
}

#[test]
fn frame_budget_at_one_fps_is_one_second() {
    assert_eq!(FrameScheduler::new(1).frame_budget(), 1_000_000_000);
}

#[test]
fn frame_budget_zero_behaves_as_one() {
    assert_eq!(FrameScheduler::new(0).frame_budget(), FrameScheduler::new(1).frame_budget());
}

#[test]
fn frame_budget_matches_division_for_several_rates() {
    for f in [1u32, 7, 30, 59, 60, 144, 240, 1000, u32::MAX] {
        assert_eq!(FrameScheduler::new(f).frame_budget(), 1_000_000_000u64 / f as u64);
    }
}

#[test]
fn pacing_sleeps_the_rest_of_the_budget() {
    let s = FrameScheduler::new(100);
    assert_eq!(s.remaining_after(4_000_000), 6_000_000);
    assert_eq!(s.remaining_after(10_000_000), 0);
    assert_eq!(s.remaining_after(25_000_000), 0);
}
