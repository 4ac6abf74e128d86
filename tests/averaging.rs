use rustic_sdr::averaging::AveragingWindow;

#[test]
fn window_length_is_min_of_pushes_and_depth() {
    let mut w = AveragingWindow::new(3, 2);
    for k in 1..=5usize {
        w.push(vec![k as u32, 0]);
        assert_eq!(w.len(), k.min(3));
    }
}

#[test]
fn output_is_mean_of_held_frames() {
    let mut w = AveragingWindow::new(4, 3);
    assert_eq!(w.push(vec![10, 20, 30]), vec![10, 20, 30]);
    assert_eq!(w.push(vec![20, 40, 0]), vec![15, 30, 15]);
    assert_eq!(w.push(vec![30, 0, 1]), vec![20, 20, 10]);
}

#[test]
fn mean_rounds_down() {
    let mut w = AveragingWindow::new(2, 1);
    w.push(vec![1]);
    assert_eq!(w.push(vec![2]), vec![1]);
}

#[test]
fn oldest_frame_is_evicted() {
    let mut w = AveragingWindow::new(2, 1);
    w.push(vec![100]);
    w.push(vec![0]);
    assert_eq!(w.push(vec![4]), vec![2]);
}

#[test]
fn depth_one_passes_through() {
    let mut w = AveragingWindow::new(1, 2);
    assert_eq!(w.push(vec![5, 6]), vec![5, 6]);
    assert_eq!(w.push(vec![7, 9]), vec![7, 9]);
    assert_eq!(w.len(), 1);
}

#[test]
fn depth_decrease_waits_for_next_push() {
    let mut w = AveragingWindow::new(5, 1);
    for v in [1u32, 2, 3, 4, 5] {
        w.push(vec![v]);
    }
    assert_eq!(w.len(), 5);
    w.set_depth(2);
    assert_eq!(w.current_depth(), 2);
    assert_eq!(w.len(), 5);
    // The push evicts down to one old frame plus the new one.
    assert_eq!(w.push(vec![9]), vec![7]);
    assert_eq!(w.len(), 2);
}

#[test]
fn large_values_do_not_overflow() {
    let mut w = AveragingWindow::new(3, 1);
    w.push(vec![u32::MAX]);
    w.push(vec![u32::MAX]);
    assert_eq!(w.push(vec![u32::MAX]), vec![u32::MAX]);
}
