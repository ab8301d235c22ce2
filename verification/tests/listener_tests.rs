use btracked::listener::{SendStatus, UpdateListener};

#[test]
fn dropped_receiver_is_purged_and_others_still_delivered() {
    // Two listeners; the first consumer goes away. The next fan-out
    // observes the disconnection, removes that entry on the spot, and
    // still delivers to the second listener.
    let mut fanout: UpdateListener<u32, String> = UpdateListener::new();
    let rx1 = fanout.add_listener(1);
    let rx2 = fanout.add_listener(2);
    assert_eq!(fanout.num_listeners(), 2);

    drop(rx1);
    let any_disconnected = fanout.sender(&"update".to_owned());
    assert!(any_disconnected);
    assert_eq!(fanout.num_listeners(), 1);
    assert_eq!(*fanout.state(0), 2);
    assert_eq!(rx2.try_recv(), Ok("update".to_owned()));
}

#[test]
fn fan_out_without_disconnections_reports_none() {
    let mut fanout: UpdateListener<(), u64> = UpdateListener::new();
    let rx1 = fanout.add_listener(());
    let rx2 = fanout.add_listener(());
    assert!(!fanout.sender(&7));
    assert_eq!(fanout.num_listeners(), 2);
    assert_eq!(rx1.try_recv(), Ok(7));
    assert_eq!(rx2.try_recv(), Ok(7));
}

#[test]
fn slow_listener_is_skipped_but_kept() {
    let mut fanout: UpdateListener<(), u64> = UpdateListener::new();
    let rx = fanout.add_listener(());
    // Fill the bounded channel to capacity.
    for n in 0..10 {
        assert!(!fanout.sender(&n));
    }
    // The next update does not fit; the listener is behind, not gone.
    assert!(!fanout.sender(&99));
    assert_eq!(fanout.num_listeners(), 1);
    assert_eq!(rx.try_recv(), Ok(0));
}

#[test]
fn send_to_reports_each_outcome() {
    let mut fanout: UpdateListener<u8, u64> = UpdateListener::new();
    let rx = fanout.add_listener(5);
    assert_eq!(fanout.send_to(0, 1), SendStatus::Sent);
    assert_eq!(rx.try_recv(), Ok(1));
    for n in 0..10 {
        assert_eq!(fanout.send_to(0, n), SendStatus::Sent);
    }
    assert_eq!(fanout.send_to(0, 11), SendStatus::Full);
    drop(rx);
    assert_eq!(fanout.send_to(0, 12), SendStatus::Disconnected);
    assert_eq!(fanout.num_listeners(), 0);
}

#[test]
fn purge_swaps_last_listener_into_place() {
    let mut fanout: UpdateListener<u32, String> = UpdateListener::new();
    let rx1 = fanout.add_listener(1);
    let rx2 = fanout.add_listener(2);
    let rx3 = fanout.add_listener(3);
    drop(rx1);
    assert_eq!(fanout.send_to(0, "x".to_owned()), SendStatus::Disconnected);
    // The last entry took index 0; both survivors are intact.
    assert_eq!(fanout.num_listeners(), 2);
    assert_eq!(*fanout.state(0), 3);
    assert_eq!(*fanout.state(1), 2);
    assert!(!fanout.sender(&"y".to_owned()));
    assert_eq!(rx2.try_recv(), Ok("y".to_owned()));
    assert_eq!(rx3.try_recv(), Ok("y".to_owned()));
}
