//! The unit converter: maps a raw code linearly onto a channel's physical
//! range. Physical values are integers in a unit the caller picks (for
//! example microvolts), so that the mapping is exact.
use vstd::prelude::*;

verus! {

/// Calibration of one channel: the physical values at code zero and at the
/// device's full-scale code.
#[derive(Clone, Copy, Debug)]
pub struct Calibration {
    pub physical_min: i64,
    pub physical_max: i64,
    pub max_code: u32,
}

/// Why a code could not be converted.
#[derive(Clone, Copy, Debug, PartialEq, Eq, Structural)]
pub enum ConversionError {
    /// The calibration gives a full-scale code of zero.
    ZeroFullScale,
    /// The calibration's minimum lies above its maximum.
    InvertedRange,
    /// The code lies above the full-scale code.
    CodeOutOfRange,
}

/// What a row conversion does with a code that cannot be converted.
#[derive(Clone, Copy, Debug, PartialEq, Eq, Structural)]
pub enum OutOfRangePolicy {
    /// Stop and report the error.
    Fail,
    /// Write the given marker value in place of the sample.
    Sentinel(i64),
}

/// The linear map from `[0, m]` onto `[min, max]`, rounded down.
pub open spec fn scaled(code: int, min: int, max: int, m: int) -> int {
    min + ((max - min) * code) / m
}

/// The outcome of converting `code` with calibration `cal`.
pub open spec fn conversion(code: u32, cal: Calibration) -> Result<i64, ConversionError> {
    if cal.max_code == 0 {
        Err(ConversionError::ZeroFullScale)
    } else if cal.physical_min > cal.physical_max {
        Err(ConversionError::InvertedRange)
    } else if code > cal.max_code {
        Err(ConversionError::CodeOutOfRange)
    } else {
        Ok(scaled(code as int, cal.physical_min as int, cal.physical_max as int, cal.max_code as int) as i64)
    }
}

/// The outcome of converting `code` under `policy`.
pub open spec fn conversion_under(code: u32, cal: Calibration, policy: OutOfRangePolicy) -> Result<
    i64,
    ConversionError,
> {
    match conversion(code, cal) {
        Ok(v) => Ok(v),
        Err(e) => match policy {
            OutOfRangePolicy::Fail => Err(e),
            OutOfRangePolicy::Sentinel(s) => Ok(s),
        },
    }
}

/// The scaled value of a code in range lies in `[min, max]`.
proof fn lemma_scaled_bounds(code: int, min: int, max: int, m: int)
    requires
        0 <= code <= m,
        0 < m,
        min <= max,
    ensures
        min <= scaled(code, min, max, m) <= max,
{
    let span = max - min;
    assert(0 <= span * code <= span * m) by (nonlinear_arith)
        requires
            0 <= code <= m,
            0 <= span,
    ;
    vstd::arithmetic::div_mod::lemma_div_is_ordered(span * code, span * m, m);
    vstd::arithmetic::div_mod::lemma_div_is_ordered(0, span * code, m);
    vstd::arithmetic::div_mod::lemma_div_multiples_vanish(span, m);
    assert(span * m == m * span) by (nonlinear_arith);
}

/// Converts a raw code into a physical value with the channel's calibration.
pub fn convert(code: u32, cal: &Calibration) -> (r: Result<i64, ConversionError>)
    ensures
        r == conversion(code, *cal),
{
    if cal.max_code == 0 {
        return Err(ConversionError::ZeroFullScale);
    }
    if cal.physical_min > cal.physical_max {
        return Err(ConversionError::InvertedRange);
    }
    if code > cal.max_code {
        return Err(ConversionError::CodeOutOfRange);
    }
    let span: u128 = (cal.physical_max as i128 - cal.physical_min as i128) as u128;
    proof {
        assert(span * code <= 0x1_0000_0000_0000_0000 * 0x1_0000_0000) by (nonlinear_arith)
            requires
                span <= 0x1_0000_0000_0000_0000,
                code <= 0x1_0000_0000,
        ;
        assert(span * code >= 0) by (nonlinear_arith)
            requires
                span >= 0,
                code >= 0,
        ;
    }
    let prod: u128 = span * (code as u128);
    let q: u128 = prod / (cal.max_code as u128);
    proof {
        lemma_scaled_bounds(
            code as int,
            cal.physical_min as int,
            cal.physical_max as int,
            cal.max_code as int,
        );
    }
    Ok((cal.physical_min as i128 + q as i128) as i64)
}

/// Converts every code of `codes`, whose channel is its position modulo the
/// number of calibrations, applying `policy` to codes that cannot be
/// converted. An error is that of the first code that fails.
pub fn convert_rows(codes: &Vec<u32>, cals: &Vec<Calibration>, policy: OutOfRangePolicy) -> (r:
    Result<Vec<i64>, ConversionError>)
    requires
        cals.len() >= 1,
    ensures
        r is Ok <==> forall|i: int|
            0 <= i < codes.len() ==> (#[trigger] conversion_under(
                codes@[i],
                cals@[i % (cals.len() as int)],
                policy,
            )) is Ok,
        r is Ok ==> r->Ok_0@.len() == codes.len() && forall|i: int|
            0 <= i < codes.len() ==> Ok::<i64, ConversionError>(#[trigger] r->Ok_0@[i])
                == conversion_under(codes@[i], cals@[i % (cals.len() as int)], policy),
        r is Err ==> exists|i: int|
            0 <= i < codes.len() && (#[trigger] conversion_under(
                codes@[i],
                cals@[i % (cals.len() as int)],
                policy,
            )) == Err::<i64, ConversionError>(r->Err_0) && forall|j: int|
                0 <= j < i ==> (#[trigger] conversion_under(
                    codes@[j],
                    cals@[j % (cals.len() as int)],
                    policy,
                )) is Ok,
{
    let mut out: Vec<i64> = Vec::new();
    let mut i: usize = 0;
    while i < codes.len()
        invariant
            cals.len() >= 1,
            i <= codes.len(),
            out@.len() == i,
            forall|k: int|
                0 <= k < i ==> (#[trigger] conversion_under(
                    codes@[k],
                    cals@[k % (cals.len() as int)],
                    policy,
                )) is Ok && Ok::<i64, ConversionError>(out@[k]) == conversion_under(
                    codes@[k],
                    cals@[k % (cals.len() as int)],
                    policy,
                ),
        decreases codes.len() - i,
    {
        let cal = cals[i % cals.len()];
        let v: i64 = match convert(codes[i], &cal) {
            Ok(v) => v,
            Err(e) => match policy {
                OutOfRangePolicy::Fail => {
                    assert(conversion_under(codes@[i as int], cals@[i as int % (cals.len() as int)], policy)
                        == Err::<i64, ConversionError>(e));
                    return Err(e);
                },
                OutOfRangePolicy::Sentinel(s) => s,
            },
        };
        out.push(v);
        i = i + 1;
    }
    Ok(out)
}

/// Code zero maps to the range's minimum and the full-scale code to its
/// maximum.
pub proof fn lemma_conversion_endpoints(cal: Calibration)
    requires
        cal.max_code > 0,
        cal.physical_min <= cal.physical_max,
    ensures
        conversion(0, cal) == Ok::<i64, ConversionError>(cal.physical_min),
        conversion(cal.max_code, cal) == Ok::<i64, ConversionError>(cal.physical_max),
{
    let span = cal.physical_max - cal.physical_min;
    let m = cal.max_code as int;
    assert(span * 0 == 0) by (nonlinear_arith);
    assert(span * m == m * span) by (nonlinear_arith);
    vstd::arithmetic::div_mod::lemma_div_multiples_vanish(span, m);
}

/// Conversion does not decrease as the code grows within the full scale.
pub proof fn lemma_conversion_monotonic(a: u32, b: u32, cal: Calibration)
    requires
        cal.max_code > 0,
        cal.physical_min <= cal.physical_max,
        a <= b <= cal.max_code,
    ensures
        conversion(a, cal) is Ok,
        conversion(b, cal) is Ok,
        conversion(a, cal)->Ok_0 <= conversion(b, cal)->Ok_0,
{
    let min = cal.physical_min as int;
    let max = cal.physical_max as int;
    let m = cal.max_code as int;
    let span = max - min;
    lemma_scaled_bounds(a as int, min, max, m);
    lemma_scaled_bounds(b as int, min, max, m);
    assert(span * a <= span * b) by (nonlinear_arith)
        requires
            a <= b,
            span >= 0,
    ;
    vstd::arithmetic::div_mod::lemma_div_is_ordered(span * a, span * b, m);
}

} // verus!
