use rs1030::dsp::demodulator::{
    bit_window_start, check_detection_start, check_p6_span, plan_snippet, LONG_BITS, SHORT_BITS,
};
use rs1030::decode::DecodeError;
use rs1030::dsp::detector::{
    next_scan_index, p2_window_start, quiet_gap, scan, sync_windows, tail_probe,
};
use rs1030::source::SourceError;
use rs1030::text::u64_text;
use rs1030::{DemodError, TimingError, UplinkTiming};

#[test]
fn validates_minimum_sample_rate() {
    assert!(matches!(
        UplinkTiming::from_sample_rate(6_000_000),
        Err(TimingError::SampleRateTooLow { .. })
    ));
    assert_eq!(
        UplinkTiming::from_sample_rate(8_000_000)
            .unwrap()
            .samples_per_bit,
        2
    );
    assert_eq!(
        UplinkTiming::from_sample_rate(20_000_000)
            .unwrap()
            .samples_per_bit,
        5
    );
}

#[test]
fn rejects_non_integer_samples_per_bit_for_now() {
    assert!(matches!(
        UplinkTiming::from_sample_rate(10_000_000),
        Err(TimingError::NonIntegerSamplesPerBit { .. })
    ));
}

#[test]
fn timing_error_carries_rates() {
    assert_eq!(
        UplinkTiming::from_sample_rate(6_000_000),
        Err(TimingError::SampleRateTooLow { sample_rate_hz: 6_000_000, minimum_hz: 8_000_000 })
    );
    assert_eq!(
        UplinkTiming::from_sample_rate(10_000_000),
        Err(TimingError::NonIntegerSamplesPerBit {
            sample_rate_hz: 10_000_000,
            bit_rate_hz: 4_000_000
        })
    );
}

#[test]
fn default_timing_at_20_msps() {
    let t = UplinkTiming::default();
    assert_eq!(t.sample_rate_hz, 20_000_000);
    assert_eq!(t.samples_per_bit, 5);
    assert_eq!(t.p1_samples, 16);
    assert_eq!(t.p2_offset_samples, 40);
    assert_eq!(t.p2_samples, 16);
    assert_eq!(t.p6_offset_samples, 70);
    assert_eq!(t.p6_sync_samples, 25);
    assert_eq!(t.p6_data_offset_samples, 35);
    assert_eq!(t.p6_guard_samples, 10);
    assert_eq!(t.min_samples_short(), 70 + 35 + 56 * 5);
    assert_eq!(t.min_samples_long(), 70 + 35 + 112 * 5);
}

#[test]
fn timing_at_8_msps_rounds_to_nearest_sample() {
    let t = UplinkTiming::from_sample_rate(8_000_000).unwrap();
    assert_eq!(t.p1_samples, 6); // 6.4 samples
    assert_eq!(t.p2_offset_samples, 16);
    assert_eq!(t.p6_offset_samples, 28);
    assert_eq!(t.p6_sync_samples, 10);
    assert_eq!(t.p6_data_offset_samples, 14);
    let t = UplinkTiming::from_sample_rate(12_000_000).unwrap();
    assert_eq!(t.p1_samples, 10); // 9.6 samples
    assert_eq!(t.p6_sync_samples, 15);
}

#[test]
fn demodulator_checks_sample_counts() {
    let t = UplinkTiming::default();
    assert_eq!(check_p6_span(1000, 57, &t), Err(DemodError::UnsupportedBitLength(57)));
    assert_eq!(
        check_p6_span(100, SHORT_BITS, &t),
        Err(DemodError::NotEnoughSamples { needed: 315, got: 100 })
    );
    assert_eq!(check_p6_span(315, SHORT_BITS, &t), Ok(315));
    assert_eq!(check_p6_span(1000, LONG_BITS, &t), Ok(595));
    assert_eq!(bit_window_start(&t, 0), 35);
    assert_eq!(bit_window_start(&t, 3), 50);
    assert_eq!(
        plan_snippet(10, &t),
        Err(DemodError::NotEnoughSamples { needed: 70, got: 10 })
    );
    assert_eq!(plan_snippet(400, &t), Ok((70, SHORT_BITS)));
    assert_eq!(plan_snippet(665, &t), Ok((70, LONG_BITS)));
    assert_eq!(
        check_detection_start(10, 11),
        Err(DemodError::NotEnoughSamples { needed: 12, got: 10 })
    );
    assert_eq!(check_detection_start(10, 10), Ok(()));
}

#[test]
fn error_texts() {
    assert_eq!(
        DemodError::UnsupportedBitLength(57).to_text(),
        "unsupported Mode S uplink length: 57 bits"
    );
    assert_eq!(
        DemodError::NotEnoughSamples { needed: 1200, got: 0 }.to_text(),
        "not enough samples: need 1200, got 0"
    );
    assert_eq!(
        UplinkTiming::from_sample_rate(6_000_000).unwrap_err().to_text(),
        "uplink sample rate 6000000 Hz is too low; minimum is 8000000 Hz"
    );
    assert_eq!(
        UplinkTiming::from_sample_rate(10_000_000).unwrap_err().to_text(),
        "sample rate 10000000 Hz is not an integer multiple of 4000000 Hz bit rate"
    );
    assert_eq!(
        DecodeError::InvalidLength(3).to_text(),
        "invalid Mode S uplink byte length: 3"
    );
    assert_eq!(
        DecodeError::Incomplete(113).to_text(),
        "Not enough data, need 113 bits (or 15 bytes)"
    );
    assert_eq!(
        SourceError::FeatureNotAvailable("soapy".to_string()).to_text(),
        "Feature not available: soapy (compile with --features soapy)"
    );
    assert_eq!(
        SourceError::InvalidCf32Length(9).to_text(),
        "Invalid CF32 length 9: expected multiple of 8 bytes"
    );
    assert_eq!(
        SourceError::UnsupportedScheme("ftp".to_string()).to_text(),
        "Unsupported scheme: ftp"
    );
    let io = SourceError::Io(std::io::Error::other("disk gone"));
    assert_eq!(io.to_text(), "I/O error: disk gone");
    assert_eq!(u64_text(0), "0");
    assert_eq!(u64_text(u64::MAX), "18446744073709551615");
}

#[test]
fn detector_windows_at_20_msps() {
    let t = UplinkTiming::default();
    // P2 nominally 40 samples after P1, 16 samples long.
    assert_eq!(p2_window_start(&t, 100, 0, 1000), Some(140));
    assert_eq!(p2_window_start(&t, 100, -2, 1000), Some(138));
    assert_eq!(p2_window_start(&t, 100, 2, 1000), Some(142));
    assert_eq!(p2_window_start(&t, 0, -2, 1000), Some(38));
    assert_eq!(p2_window_start(&t, 100, 2, 157), None);
    assert_eq!(p2_window_start(&t, 100, 2, 158), Some(142));
    // Quiet gap: from the end of P1 (16 samples) to 2 samples before P2.
    assert_eq!(quiet_gap(&t, 100, 1000), Some((116, 22)));
    assert_eq!(quiet_gap(&t, 100, 137), None);
    // Long frames: 70 + 35 + 112 * 5 = 665 samples from P1.
    assert_eq!(tail_probe(&t, 10, 675), Some((10 + 70 + 35 + 280, 50)));
    assert_eq!(tail_probe(&t, 10, 674), None);
    assert_eq!(next_scan_index(&t, 10, 112), 675);
    assert_eq!(next_scan_index(&t, 10, 56), 395);
    // Sync reversal at P6 + 25 samples; windows of one bit period.
    assert_eq!(sync_windows(&t, 70, 0, 1000), Some((85, 95)));
    assert_eq!(sync_windows(&t, 70, -1, 1000), Some((84, 94)));
    assert_eq!(sync_windows(&t, 70, 1, 100), None);
    assert_eq!(sync_windows(&t, 0, -1, 1000), Some((14, 24)));
    assert_eq!(sync_windows(&t, 0, 0, 5), None);
}

#[test]
fn scan_skips_past_each_frame() {
    let t = UplinkTiming::default();
    // Short frames span 385 samples, long ones 665, at 20 MS/s.
    let mut found = vec![0usize; 2000];
    found[10] = 56;
    found[200] = 112; // inside the frame found at 10: not reported
    found[395] = 112;
    found[700] = 56; // inside the long frame at 395
    found[1060] = 56;
    found[1999] = 56;
    assert_eq!(scan(&t, &found), vec![10, 395, 1060, 1999]);
    assert_eq!(scan(&t, &[]), Vec::<usize>::new());
    assert_eq!(scan(&t, &[0, 0, 0]), Vec::<usize>::new());
}
