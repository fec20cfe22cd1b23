use habits_display::ntp::{
    ntp_time_to_micros, NtpAction, NtpSync, Timestamp, NTP_PORT, RESOLVE_RETRY_SECS,
    SYNC_INTERVAL_SECS,
};

#[test]
fn timestamp_splits_seconds_and_micros() {
    let t = Timestamp { current_time_us: 1_780_008_690_123_456 };
    assert_eq!(t.timestamp_sec(), 1_780_008_690);
    assert_eq!(t.timestamp_subsec_micros(), 123_456);
    let t = Timestamp { current_time_us: 999_999 };
    assert_eq!(t.timestamp_sec(), 0);
    assert_eq!(t.timestamp_subsec_micros(), 999_999);
}

#[test]
fn ntp_answer_to_micros() {
    assert_eq!(ntp_time_to_micros(1_780_008_690, 0), 1_780_008_690_000_000);
    assert_eq!(ntp_time_to_micros(1_780_008_690, 0x8000_0000), 1_780_008_690_500_000);
    assert_eq!(ntp_time_to_micros(0, u32::MAX), 999_999);
}

#[test]
fn law_clock_reads_back_ntp_time_example() {
    let micros = ntp_time_to_micros(1_780_008_690, 0x4000_0000);
    let t = Timestamp { current_time_us: micros };
    assert_eq!(t.timestamp_sec(), 1_780_008_690);
    assert_eq!(t.timestamp_subsec_micros(), 250_000);
}

#[test]
fn sync_loop_decisions() {
    let mut sync = NtpSync::new();
    assert!(matches!(sync.on_resolved(&[]), NtpAction::RetryResolve { delay_secs: RESOLVE_RETRY_SECS }));
    match sync.on_resolved(&[[162, 159, 200, 1], [1, 1, 1, 1]]) {
        NtpAction::Query { server, port } => {
            assert_eq!(server, [162, 159, 200, 1]);
            assert_eq!(port, NTP_PORT);
        }
        other => panic!("unexpected {:?}", other),
    }
    match sync.on_answer(Some((1_780_008_690, 0))) {
        NtpAction::SetClock { micros, next_query_secs } => {
            assert_eq!(micros, 1_780_008_690_000_000);
            assert_eq!(next_query_secs, SYNC_INTERVAL_SECS);
        }
        other => panic!("unexpected {:?}", other),
    }
    assert!(matches!(sync.next_query(), NtpAction::Query { server: [162, 159, 200, 1], port: 123 }));
    assert!(matches!(sync.on_answer(None), NtpAction::Resolve));
}
