//! Normalisation of a raw sensor reading into a one-byte noise metric.

use vstd::prelude::*;

verus! {

/// Largest value the analog front-end reports; it stands for silence.
pub const MAX_RAW: u16 = 950;

/// The noise metric of a raw reading: the distance from `MAX_RAW`, rescaled
/// from `0..=MAX_RAW` onto `0..=255` with floor division.
pub open spec fn metric_of(raw: int) -> int {
    (MAX_RAW - raw) * 255 / (MAX_RAW as int)
}

/// Whether a raw reading lies in the range the sensor is specified for.
pub open spec fn in_range(raw: int) -> bool {
    0 <= raw <= MAX_RAW
}

/// Every in-range reading maps into a byte, the quietest reading to `0` and
/// the loudest to `255`.
pub proof fn lemma_metric_bounds(raw: int)
    requires
        in_range(raw),
    ensures
        0 <= metric_of(raw) <= 255,
        metric_of(0) == 255,
        metric_of(MAX_RAW as int) == 0,
{
}

/// The metric never increases as the raw reading increases.
pub proof fn lemma_metric_antitone(lo: int, hi: int)
    requires
        in_range(lo),
        in_range(hi),
        lo <= hi,
    ensures
        metric_of(hi) <= metric_of(lo),
{
}

/// Computes the noise metric of an in-range reading.
pub fn noise_metric(raw: u16) -> (metric: u8)
    requires
        in_range(raw as int),
    ensures
        metric as int == metric_of(raw as int),
{
    let distance: u32 = (MAX_RAW - raw) as u32;
    let scaled: u32 = distance * 255 / (MAX_RAW as u32);
    scaled as u8
}

/// Computes the noise metric of any reading, refusing those above `MAX_RAW`.
pub fn checked_noise_metric(raw: u16) -> (metric: Option<u8>)
    ensures
        metric is Some <==> in_range(raw as int),
        metric matches Some(m) ==> m as int == metric_of(raw as int),
{
    if raw <= MAX_RAW {
        Some(noise_metric(raw))
    } else {
        None
    }
}

} // verus!
