use rustic_sdr::tail_ring::{fallback_slot, next_slot, TailRing, TailSink};

#[test]
fn read_before_any_publish_fails() {
    let mut ring: TailRing<u32> = TailRing::new(4);
    assert!(ring.get().is_err());
}

#[test]
fn lease_on_fresh_ring_is_first_slot() {
    let mut ring: TailRing<u32> = TailRing::new(4);
    assert_eq!(ring.get_lease(), 1);
}

#[test]
fn only_newest_of_three_snapshots_is_observed() {
    let mut ring: TailRing<u32> = TailRing::new(3);
    let mut sink: TailSink<u32> = TailSink::new();
    sink.work(&mut ring, &[1, 1, 1]);
    sink.work(&mut ring, &[2, 2, 2]);
    sink.work(&mut ring, &[3, 3, 3]);
    let slot = ring.get().unwrap();
    assert_eq!(ring.frame().as_slice(), &[3, 3, 3]);
    ring.release_read();
    // Nothing queued behind it: the next poll sees the same newest frame.
    assert_eq!(ring.get().unwrap(), slot);
    assert_eq!(ring.frame().as_slice(), &[3, 3, 3]);
}

#[test]
fn partial_frame_is_not_published() {
    let mut ring: TailRing<u32> = TailRing::new(4);
    let mut sink: TailSink<u32> = TailSink::new();
    sink.work(&mut ring, &[1, 2, 3]);
    assert!(ring.get().is_err());
    sink.work(&mut ring, &[4, 5]);
    ring.get().unwrap();
    assert_eq!(ring.frame().as_slice(), &[1, 2, 3, 4]);
}

#[test]
fn items_spanning_frames_are_cut_in_order() {
    let mut ring: TailRing<u32> = TailRing::new(2);
    let mut sink: TailSink<u32> = TailSink::new();
    sink.work(&mut ring, &[1, 2, 3, 4, 5]);
    ring.get().unwrap();
    assert_eq!(ring.frame().as_slice(), &[3, 4]);
    ring.release_read();
    sink.work(&mut ring, &[6]);
    ring.get().unwrap();
    assert_eq!(ring.frame().as_slice(), &[5, 6]);
}

#[test]
fn reader_keeps_complete_frame_while_writer_goes_on() {
    let mut ring: TailRing<u32> = TailRing::new(2);
    let mut sink: TailSink<u32> = TailSink::new();
    sink.work(&mut ring, &[7, 8]);
    let held = ring.get().unwrap();
    // The writer publishes three more frames while the reader still holds its slot.
    sink.work(&mut ring, &[1, 1, 2, 2, 3, 3]);
    assert_eq!(ring.frame().as_slice(), &[7, 8]);
    ring.release_read();
    let now = ring.get().unwrap();
    assert_ne!(now, held);
    assert_eq!(ring.frame().as_slice(), &[3, 3]);
}

#[test]
fn read_fails_while_writer_still_holds_published_slot() {
    let mut ring: TailRing<u32> = TailRing::new(1);
    let s = ring.get_lease();
    ring.write(0, 9);
    ring.publish();
    assert!(ring.get().is_err());
    ring.release_lease();
    assert_eq!(ring.get().unwrap(), s);
    assert_eq!(ring.frame().as_slice(), &[9]);
}

#[test]
fn lease_avoids_current_and_reader_slot() {
    let mut ring: TailRing<u32> = TailRing::new(1);
    let a = ring.get_lease();
    ring.write(0, 1);
    ring.publish();
    ring.release_lease();
    assert_eq!(a, 1);
    // Reader holds slot 1, the current one; the writer takes the preferred slot 2.
    assert_eq!(ring.get().unwrap(), 1);
    let b = ring.get_lease();
    assert_eq!(b, 2);
    ring.write(0, 2);
    ring.publish();
    ring.release_lease();
    // Current is 2 and the reader still holds 1: preferred is 3, free.
    assert_eq!(ring.get_lease(), 3);
    ring.write(0, 3);
    ring.publish();
    ring.release_lease();
    // Current is 3, preferred is 1, which the reader holds: fall back to 2.
    assert_eq!(ring.get_lease(), 2);
    assert_eq!(ring.frame().as_slice(), &[1]);
}

#[test]
fn slot_rotation_order() {
    assert_eq!(next_slot(0), 1);
    assert_eq!(next_slot(1), 2);
    assert_eq!(next_slot(2), 3);
    assert_eq!(next_slot(3), 1);
    assert_eq!(fallback_slot(1), 3);
    assert_eq!(fallback_slot(2), 1);
    assert_eq!(fallback_slot(3), 2);
}

#[test]
fn buffer_size_is_kept() {
    let ring: TailRing<u32> = TailRing::new(4096);
    assert_eq!(ring.buffer_size(), 4096);
}

#[test]
fn fresh_slots_hold_defaults() {
    let mut ring: TailRing<u32> = TailRing::new(4);
    assert_eq!(ring.get_lease(), 1);
    ring.publish();
    ring.release_lease();
    ring.get().unwrap();
    assert_eq!(ring.frame().as_slice(), &[0, 0, 0, 0]);
}
