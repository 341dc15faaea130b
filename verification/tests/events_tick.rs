use novasdr_server::events::{packet_bits, EventTickAction, EventTicker};

#[test]
fn quiet_ticks_publish_every_tenth() {
    let mut t = EventTicker::new();
    let mut published = Vec::new();
    for _ in 0..25 {
        let a = t.on_tick(0, 0, 3, &[false, false]);
        if a.publish.is_some() {
            assert_eq!(a.publish, Some(false));
            published.push(t.ticks());
        }
    }
    assert_eq!(published, vec![10, 20]);
}

#[test]
fn changes_publish_every_tick_when_other_users_shown() {
    let mut t = EventTicker::new();
    let a = t.on_tick(12_345, 64_000, 1, &[false, true]);
    assert_eq!(
        a,
        EventTickAction { waterfall_kbits_per_sec: 12, audio_kbits_per_sec: 64, publish: Some(true) }
    );
    assert_eq!(t.ticks(), 1);
}

#[test]
fn changes_ignored_when_other_users_hidden() {
    let mut t = EventTicker::new();
    assert_eq!(t.on_tick(999, 1000, 0, &[true]).publish, None);
    assert_eq!(t.on_tick(999, 1000, -1, &[true]).audio_kbits_per_sec, 1);
}

#[test]
fn no_receivers_no_changes() {
    let mut t = EventTicker::new();
    assert_eq!(t.on_tick(0, 0, 5, &[]).publish, None);
}

#[test]
fn packet_bits_counts_bytes() {
    assert_eq!(packet_bits(100), 800);
    assert_eq!(packet_bits(0), 0);
}
