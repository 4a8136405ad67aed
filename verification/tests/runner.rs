use ascii_renderer::runner::{pace, Pace, ProcessReturn, SECOND};

#[test]
fn process_return_tells_continue_from_end() {
    assert_ne!(ProcessReturn::Continue, ProcessReturn::End);
    assert_eq!(ProcessReturn::End, ProcessReturn::End);
}

#[test]
fn pace_waits_for_the_rest_of_the_frame_time() {
    // 25 frames in a second: 40 ms each.
    assert_eq!(pace(0, 25), Pace::Wait { nanos: 40_000_000 });
    assert_eq!(pace(10_000_000, 25), Pace::Wait { nanos: 30_000_000 });
    assert_eq!(pace(39_999_999, 25), Pace::Wait { nanos: 1 });
    assert_eq!(pace(40_000_000, 25), Pace::Frame);
    assert_eq!(pace(40_000_001, 25), Pace::Frame);
    assert_eq!(pace(u64::MAX, 25), Pace::Frame);
}

#[test]
fn pace_counts_whole_nanoseconds() {
    // A third of a second is 333 333 333 ns and a third.
    assert_eq!(pace(0, 3), Pace::Wait { nanos: 333_333_333 });
    assert_eq!(pace(333_333_333, 3), Pace::Wait { nanos: 0 });
    assert_eq!(pace(333_333_334, 3), Pace::Frame);
    assert_eq!(pace(0, 1), Pace::Wait { nanos: SECOND });
    assert_eq!(pace(SECOND - 1, 1), Pace::Wait { nanos: 1 });
    assert_eq!(pace(SECOND, 1), Pace::Frame);
    assert_eq!(pace(0, usize::MAX), Pace::Wait { nanos: 0 });
    assert_eq!(pace(1, usize::MAX), Pace::Frame);
    assert_eq!(SECOND, 1_000_000_000);
}
