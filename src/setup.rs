//! Decisions taken once before streaming starts: the width of a raw code,
//! the size of the device's ring buffer, and the bounded retry of command
//! negotiation.
use vstd::prelude::*;

verus! {

/// Width of the device's raw codes, fixed for a whole acquisition.
#[derive(Clone, Copy, Debug, PartialEq, Eq, Structural)]
pub enum SampleWidth {
    /// Two-byte codes.
    Narrow,
    /// Four-byte codes.
    Wide,
}

/// How often a command is tested before negotiation gives up.
pub const COMMAND_TEST_ATTEMPTS: u32 = 3;

/// What to do after a command test.
#[derive(Clone, Copy, Debug, PartialEq, Eq, Structural)]
pub enum Negotiation {
    /// The device accepted the command: start streaming.
    Accepted,
    /// The device adjusted the command: test it again.
    Retry,
    /// Every attempt was refused: give up.
    ExhaustedRetries,
}

pub open spec fn code_bytes(w: SampleWidth) -> nat {
    match w {
        SampleWidth::Narrow => 2,
        SampleWidth::Wide => 4,
    }
}

/// The sample width that the device's capability flag for wide codes
/// selects.
pub fn sample_width(wide_flag: bool) -> (r: SampleWidth)
    ensures
        r == (if wide_flag {
            SampleWidth::Wide
        } else {
            SampleWidth::Narrow
        }),
{
    if wide_flag {
        SampleWidth::Wide
    } else {
        SampleWidth::Narrow
    }
}

/// Bytes that one raw code takes.
pub fn sample_bytes(w: SampleWidth) -> (r: usize)
    ensures
        r == code_bytes(w),
{
    match w {
        SampleWidth::Narrow => 2,
        SampleWidth::Wide => 4,
    }
}

/// Size in bytes of a device ring buffer that holds `depth` scans of
/// `channels` codes of width `w`, or `None` where it does not fit in 32 bits.
pub fn ring_buffer_bytes(depth: usize, channels: usize, w: SampleWidth) -> (r: Option<u32>)
    ensures
        depth * channels * code_bytes(w) <= u32::MAX ==> r == Some(
            (depth * channels * code_bytes(w)) as u32,
        ),
        depth * channels * code_bytes(w) > u32::MAX ==> r is None,
{
    let b: u64 = sample_bytes(w) as u64;
    if depth as u64 > u32::MAX as u64 || channels as u64 > u32::MAX as u64 {
        if depth == 0 || channels == 0 {
            proof {
                assert(depth * channels == 0) by (nonlinear_arith)
                    requires
                        depth == 0 || channels == 0,
                ;
            }
            return Some(0);
        }
        proof {
            assert(depth * channels * code_bytes(w) > u32::MAX) by (nonlinear_arith)
                requires
                    depth >= 1,
                    channels >= 1,
                    depth > u32::MAX || channels > u32::MAX,
                    code_bytes(w) >= 2,
            ;
        }
        return None;
    }
    proof {
        assert(depth * channels <= u32::MAX * u32::MAX) by (nonlinear_arith)
            requires
                depth <= u32::MAX,
                channels <= u32::MAX,
        ;
    }
    let dc: u64 = depth as u64 * channels as u64;
    if dc > u32::MAX as u64 {
        proof {
            assert(depth * channels * code_bytes(w) >= depth * channels) by (nonlinear_arith)
                requires
                    code_bytes(w) >= 2,
                    depth * channels >= 0,
            ;
        }
        return None;
    }
    let total: u64 = dc * b;
    if total > u32::MAX as u64 {
        None
    } else {
        Some(total as u32)
    }
}

/// The decision after test number `attempt` (counted from zero) of a
/// command, which the device accepted when `passed` holds.
pub fn negotiation_step(attempt: u32, passed: bool) -> (r: Negotiation)
    ensures
        passed ==> r == Negotiation::Accepted,
        !passed && attempt + 1 >= COMMAND_TEST_ATTEMPTS ==> r == Negotiation::ExhaustedRetries,
        !passed && attempt + 1 < COMMAND_TEST_ATTEMPTS ==> r == Negotiation::Retry,
{
    if passed {
        Negotiation::Accepted
    } else if attempt >= COMMAND_TEST_ATTEMPTS - 1 {
        Negotiation::ExhaustedRetries
    } else {
        Negotiation::Retry
    }
}

} // verus!
