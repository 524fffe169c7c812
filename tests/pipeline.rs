use daq_stream::acquisition::{Acquisition, SetupError};
use daq_stream::convert::{convert, convert_rows, Calibration, ConversionError, OutOfRangePolicy};
use daq_stream::monitor::{AbortReason, StallMonitor, StallPolicy, Verdict};
use daq_stream::setup::{negotiation_step, ring_buffer_bytes, sample_bytes, sample_width, Negotiation, SampleWidth};

#[test]
fn scenario_two_ticks_complete() {
    let mut a = Acquisition::new(4, 2, 2, StallPolicy::Strict).unwrap();
    assert_eq!(a.read_request(), 8);
    let t1 = a.step(&vec![1, 2, 3, 4, 5, 6], false);
    assert_eq!(t1.first_row, 0);
    assert_eq!(t1.row_count, 1);
    assert_eq!(t1.rows, vec![1, 2, 3, 4]);
    assert_eq!(a.leftover, 2);
    assert_eq!(t1.verdict, Verdict::Running);
    assert_eq!(a.read_request(), 2);
    let t2 = a.step(&vec![7, 8], false);
    assert_eq!(t2.first_row, 1);
    assert_eq!(t2.row_count, 1);
    assert_eq!(t2.rows, vec![5, 6, 7, 8]);
    assert_eq!(a.leftover, 0);
    assert_eq!(t2.verdict, Verdict::Complete);
    assert_eq!(a.total, 2);
    assert_eq!(a.read_request(), 0);
}

#[test]
fn scenario_tolerant_stalls_then_fatal() {
    let mut a = Acquisition::new(4, 2, 5, StallPolicy::Tolerant(2)).unwrap();
    let t = a.step(&vec![1, 2, 3, 4], false);
    assert_eq!(t.verdict, Verdict::Running);
    assert_eq!(a.step(&vec![], false).verdict, Verdict::StallWait);
    assert_eq!(a.step(&vec![], false).verdict, Verdict::StallWait);
    assert_eq!(a.step(&vec![], false).verdict, Verdict::Fatal(AbortReason::StallExceeded));
    assert_eq!(a.total, 1);
}

#[test]
fn tolerant_read_resets_stall_count() {
    let mut a = Acquisition::new(4, 2, 5, StallPolicy::Tolerant(2)).unwrap();
    assert_eq!(a.step(&vec![1, 2, 3, 4], false).verdict, Verdict::Running);
    assert_eq!(a.step(&vec![], false).verdict, Verdict::StallWait);
    assert_eq!(a.step(&vec![], false).verdict, Verdict::StallWait);
    assert_eq!(a.step(&vec![5, 6, 7, 8], false).verdict, Verdict::Running);
    assert_eq!(a.monitor.stalls, 0);
    assert_eq!(a.step(&vec![], false).verdict, Verdict::StallWait);
    assert_eq!(a.step(&vec![], false).verdict, Verdict::StallWait);
    assert_eq!(a.step(&vec![], false).verdict, Verdict::Fatal(AbortReason::StallExceeded));
}

#[test]
fn strict_first_empty_read_is_fatal() {
    let mut a = Acquisition::new(2, 4, 3, StallPolicy::Strict).unwrap();
    assert_eq!(a.step(&vec![], false).verdict, Verdict::Fatal(AbortReason::StallExceeded));
    let mut m = StallMonitor::new(StallPolicy::Strict);
    assert_eq!(m.observe(0, 0, 1, false), Verdict::Fatal(AbortReason::StallExceeded));
}

#[test]
fn stream_end_before_target_is_premature() {
    let mut a = Acquisition::new(2, 4, 3, StallPolicy::Tolerant(5)).unwrap();
    let t = a.step(&vec![1, 2], true);
    assert_eq!(t.verdict, Verdict::Fatal(AbortReason::PrematureCompletion));
    assert_eq!(t.row_count, 1);
}

#[test]
fn empty_read_with_leftover_keeps_carry() {
    let mut a = Acquisition::new(3, 2, 4, StallPolicy::Tolerant(1)).unwrap();
    let t = a.step(&vec![1, 2, 3, 4], false);
    assert_eq!(t.rows, vec![1, 2, 3]);
    assert_eq!(a.leftover, 1);
    let t = a.step(&vec![], false);
    assert_eq!(t.row_count, 0);
    assert_eq!(t.verdict, Verdict::StallWait);
    assert_eq!(a.leftover, 1);
    let t = a.step(&vec![5, 6], false);
    assert_eq!(t.first_row, 1);
    assert_eq!(t.rows, vec![4, 5, 6]);
}

#[test]
fn request_bounded_by_buffer_and_target() {
    let mut a = Acquisition::new(3, 4, 100, StallPolicy::Strict).unwrap();
    assert_eq!(a.read_request(), 12);
    a.step(&vec![0; 11], false);
    assert_eq!(a.leftover, 2);
    assert_eq!(a.read_request(), 10);
    let b = Acquisition::new(3, 4, 1, StallPolicy::Strict).unwrap();
    assert_eq!(b.read_request(), 3);
}

#[test]
fn setup_errors() {
    assert_eq!(Acquisition::new(0, 4, 1, StallPolicy::Strict).err(), Some(SetupError::EmptyChannelList));
    assert_eq!(Acquisition::new(4, 0, 1, StallPolicy::Strict).err(), Some(SetupError::ZeroBufferDepth));
    assert_eq!(Acquisition::new(usize::MAX, 2, 1, StallPolicy::Strict).err(), Some(SetupError::BufferTooLarge));
    assert_eq!(Acquisition::new(1 << 62, 1, 1, StallPolicy::Strict).err(), Some(SetupError::BufferTooLarge));
}

#[test]
fn zero_target_is_complete_at_once() {
    let mut a = Acquisition::new(2, 2, 0, StallPolicy::Strict).unwrap();
    assert_eq!(a.read_request(), 0);
    assert_eq!(a.step(&vec![], false).verdict, Verdict::Complete);
}

#[test]
fn chunk_boundaries_do_not_change_rows() {
    let codes: Vec<u32> = (0..12).collect();
    let mut one = Acquisition::new(3, 4, 4, StallPolicy::Strict).unwrap();
    let all = one.step(&codes, false);
    let mut many = Acquisition::new(3, 4, 4, StallPolicy::Strict).unwrap();
    let mut rows: Vec<u32> = Vec::new();
    let mut count = 0;
    for chunk in [&codes[0..1], &codes[1..5], &codes[5..5], &codes[5..11], &codes[11..12]] {
        let t = many.step(&chunk.to_vec(), false);
        assert_eq!(t.first_row as usize, count);
        count += t.row_count;
        rows.extend(t.rows);
    }
    assert_eq!(rows, all.rows);
    assert_eq!(count, 4);
    assert_eq!(many.total, 4);
    assert_eq!(many.leftover, 0);
}

#[test]
fn reassemble_moves_tail_to_front() {
    let mut a = Acquisition::new(3, 3, 10, StallPolicy::Strict).unwrap();
    let t = a.step(&vec![10, 11], false);
    assert_eq!(t.row_count, 0);
    assert_eq!(a.carry_codes(), vec![10, 11]);
    let t = a.step(&vec![12, 13, 14, 15, 16], false);
    assert_eq!(t.row_count, 2);
    assert_eq!(t.rows, vec![10, 11, 12, 13, 14, 15]);
    assert_eq!(a.leftover, 1);
    assert_eq!(a.carry_codes(), vec![16]);
}

#[test]
fn reassemble_empty_read_below_width() {
    let mut a = Acquisition::new(4, 1, 3, StallPolicy::Tolerant(1)).unwrap();
    a.step(&vec![7, 8], false);
    let t = a.step(&vec![], false);
    assert_eq!(t.row_count, 0);
    assert!(t.rows.is_empty());
    assert_eq!(a.leftover, 2);
    assert_eq!(a.carry_codes(), vec![7, 8]);
}

#[test]
fn conversion_endpoints_and_midpoint() {
    let cal = Calibration { physical_min: -10_000_000, physical_max: 10_000_000, max_code: 65535 };
    assert_eq!(convert(0, &cal), Ok(-10_000_000));
    assert_eq!(convert(65535, &cal), Ok(10_000_000));
    assert_eq!(convert(32768, &cal), Ok(152));
    assert!(convert(100, &cal).unwrap() <= convert(101, &cal).unwrap());
}

#[test]
fn conversion_extreme_range() {
    let cal = Calibration { physical_min: i64::MIN, physical_max: i64::MAX, max_code: u32::MAX };
    assert_eq!(convert(0, &cal), Ok(i64::MIN));
    assert_eq!(convert(u32::MAX, &cal), Ok(i64::MAX));
}

#[test]
fn conversion_errors() {
    let ok = Calibration { physical_min: 0, physical_max: 100, max_code: 10 };
    assert_eq!(convert(11, &ok), Err(ConversionError::CodeOutOfRange));
    let zero = Calibration { physical_min: 0, physical_max: 100, max_code: 0 };
    assert_eq!(convert(0, &zero), Err(ConversionError::ZeroFullScale));
    let inverted = Calibration { physical_min: 5, physical_max: 1, max_code: 10 };
    assert_eq!(convert(3, &inverted), Err(ConversionError::InvertedRange));
}

#[test]
fn convert_rows_per_channel_and_policy() {
    let cals = vec![
        Calibration { physical_min: 0, physical_max: 100, max_code: 10 },
        Calibration { physical_min: -50, physical_max: 50, max_code: 4 },
    ];
    let codes = vec![5, 2, 10, 4, 11, 0];
    assert_eq!(convert_rows(&codes, &cals, OutOfRangePolicy::Fail), Err(ConversionError::CodeOutOfRange));
    assert_eq!(
        convert_rows(&codes, &cals, OutOfRangePolicy::Sentinel(i64::MIN)),
        Ok(vec![50, 0, 100, 50, i64::MIN, -50])
    );
    assert_eq!(convert_rows(&codes[..4].to_vec(), &cals, OutOfRangePolicy::Fail), Ok(vec![50, 0, 100, 50]));
}

#[test]
fn setup_decisions() {
    assert_eq!(sample_width(true), SampleWidth::Wide);
    assert_eq!(sample_width(false), SampleWidth::Narrow);
    assert_eq!(sample_bytes(SampleWidth::Narrow), 2);
    assert_eq!(sample_bytes(SampleWidth::Wide), 4);
    assert_eq!(ring_buffer_bytes(2048, 16, SampleWidth::Wide), Some(131072));
    assert_eq!(ring_buffer_bytes(2048, 16, SampleWidth::Narrow), Some(65536));
    assert_eq!(ring_buffer_bytes(1 << 30, 2, SampleWidth::Wide), None);
    assert_eq!(ring_buffer_bytes(0, usize::MAX, SampleWidth::Wide), Some(0));
    assert_eq!(negotiation_step(0, true), Negotiation::Accepted);
    assert_eq!(negotiation_step(0, false), Negotiation::Retry);
    assert_eq!(negotiation_step(1, false), Negotiation::Retry);
    assert_eq!(negotiation_step(2, false), Negotiation::ExhaustedRetries);
}
