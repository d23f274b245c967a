//! The model whose parameters were fitted to review data.

use vstd::prelude::*;
use super::{Algorithm, CardState, CardStateView, MeanQuality, Quality, QUALITY_UNIT};
use crate::db::{GlobalState, GlobalStateView};
use crate::fixed::{increment, product_fits, round_div, rounded_quotient, saturated, successor};

verus! {

/// The model with eight parameters that were fitted to review data. It
/// keeps no ease factor of its own: it reads the mean quality of all
/// reviews.
#[derive(Debug, Clone, Copy, PartialEq, Eq, Structural)]
pub struct Simple8 {}

/// The first interval, in whole days, of a card that has failed `failures`
/// times: `2.4849 * e^(-0.057 * failures)` rounded, which is 2 up to eight
/// failures, 1 up to twenty-eight, and 0 from then on.
pub open spec fn first_interval_days(failures: u64) -> u64 {
    if failures <= 8 {
        2
    } else if failures <= 28 {
        1
    } else {
        0
    }
}

/// The ease, in millionths, that goes with a mean quality `q` in
/// millionths:
/// `0.0542 q^4 - 0.4848 q^3 + 1.4916 q^2 - 1.2403 q + 1.4515`.
pub open spec fn ease_of_quality(q: u64) -> u64 {
    let q = q as nat;
    let up = 542 * (q * q * q * q) + 14_916_000_000_000_000 * (q * q)
        + 14_515_000_000_000_000_000_000_000_000;
    let down = 4_848_000_000 * (q * q * q) + 12_403_000_000_000_000_000_000 * q;
    if up <= down {
        0
    } else {
        saturated(rounded_quotient((up - down) as nat, 10_000_000_000_000_000_000_000))
    }
}

/// The factor, in millionths, by which an interval grows:
/// `1.2 + (ease - 1.2) * 0.5^log2(repetitions)`, in which the power is
/// one over the repetitions; the ease itself where there were none.
pub open spec fn growth_factor(ease: u64, repetitions: u64) -> u64 {
    if repetitions == 0 {
        ease
    } else {
        saturated(
            rounded_quotient(
                1_200_000 * (repetitions - 1) as nat + ease as nat,
                repetitions as nat,
            ),
        )
    }
}

/// The quality, in millionths, from which the model takes its ease: the
/// mean of all reviews, or this review's own where there is no mean yet.
pub open spec fn guiding_quality(quality: Quality, mean_q: Option<u64>) -> u64 {
    match mean_q {
        Some(m) => m,
        None => (quality.score() * QUALITY_UNIT) as u64,
    }
}

/// What the model remembers of a card after a review, where `mean_q` is the
/// mean quality of all reviews. A failed review starts the card over. The
/// first success after that gives the first interval; a later one lets the
/// interval grow.
pub open spec fn simple8_next(
    quality: Quality,
    state: CardStateView,
    mean_q: Option<u64>,
) -> CardStateView {
    if quality.is_failure() {
        CardStateView {
            repetitions: 0,
            interval: 0,
            failed_count: successor(state.failed_count),
            ..state
        }
    } else if state.repetitions == 0 || state.interval == 0 {
        CardStateView {
            interval: first_interval_days(state.failed_count),
            repetitions: successor(state.repetitions),
            ..state
        }
    } else {
        CardStateView {
            interval: saturated(
                rounded_quotient(
                    state.interval as nat * growth_factor(
                        ease_of_quality(guiding_quality(quality, mean_q)),
                        state.repetitions,
                    ) as nat,
                    1_000_000,
                ),
            ),
            repetitions: successor(state.repetitions),
            ..state
        }
    }
}

/// The more often a card has failed, the shorter its first interval, or
/// the same.
pub proof fn first_interval_never_grows(fewer: u64, more: u64)
    requires
        fewer <= more,
    ensures
        first_interval_days(more) <= first_interval_days(fewer),
        first_interval_days(0) == 2,
{
}

/// The first interval, in whole days, of a card that has failed
/// `total_failures` times.
pub fn first_interval(total_failures: u64) -> (days: u64)
    ensures
        days == first_interval_days(total_failures),
{
    if total_failures <= 8 {
        2
    } else if total_failures <= 28 {
        1
    } else {
        0
    }
}

/// The factor, in millionths, by which an interval grows for an ease in
/// millionths.
pub fn interval_factor(ease: u64, repetitions: u64) -> (factor: u64)
    ensures
        factor == growth_factor(ease, repetitions),
{
    if repetitions == 0 {
        ease
    } else {
        let before: u64 = repetitions - 1;
        proof {
            product_fits(before, 1_200_000);
            assert(1_200_000 * before as nat == before as nat * 1_200_000) by (nonlinear_arith);
        }
        let base: u128 = 1_200_000u128 * before as u128;
        round_div(base + ease as u128, repetitions as u128)
    }
}

/// The ease, in millionths, that goes with the mean quality `q`.
pub fn quality_to_ease(q: MeanQuality) -> (ease: u64)
    ensures
        ease == ease_of_quality(q@),
{
    let x: u128 = q.millionths() as u128;
    assert(x * x <= 25_000_000_000_000) by (nonlinear_arith)
        requires
            x <= 5_000_000,
    ;
    let x2: u128 = x * x;
    assert(x2 * x <= 125_000_000_000_000_000_000) by (nonlinear_arith)
        requires
            x2 <= 25_000_000_000_000,
            x <= 5_000_000,
    ;
    let x3: u128 = x2 * x;
    assert(x3 * x <= 625_000_000_000_000_000_000_000_000) by (nonlinear_arith)
        requires
            x3 <= 125_000_000_000_000_000_000,
            x <= 5_000_000,
    ;
    let x4: u128 = x3 * x;
    let up: u128 = 542 * x4 + 14_916_000_000_000_000 * x2 + 14_515_000_000_000_000_000_000_000_000;
    let down: u128 = 4_848_000_000 * x3 + 12_403_000_000_000_000_000_000 * x;
    if up <= down {
        0
    } else {
        round_div(up - down, 10_000_000_000_000_000_000_000)
    }
}

impl Algorithm for Simple8 {
    open spec fn state_after(
        &self,
        quality: Quality,
        state: CardStateView,
        global: GlobalStateView,
    ) -> CardStateView {
        simple8_next(quality, state, global.mean_q)
    }

    open spec fn factors_after(
        &self,
        quality: Quality,
        state: CardStateView,
        global: GlobalStateView,
    ) -> Map<(u64, u64), u64> {
        global.factors
    }

    open spec fn label(&self) -> Seq<char> {
        "Simple8"@
    }

    fn update_state(&self, quality: &Quality, state: &mut CardState, global: &mut GlobalState) {
        if quality.failed() {
            state.repetitions = 0;
            state.interval = 0;
            state.failed_count = increment(state.failed_count);
        } else if state.repetitions == 0 || state.interval == 0 {
            state.interval = first_interval(state.failed_count);
            state.repetitions = increment(state.repetitions);
        } else {
            let q = match global.mean_q {
                Some(m) => m,
                None => MeanQuality::of(*quality),
            };
            let factor = interval_factor(quality_to_ease(q), state.repetitions);
            proof {
                product_fits(state.interval, factor);
            }
            state.interval = round_div(state.interval as u128 * factor as u128, 1_000_000);
            state.repetitions = increment(state.repetitions);
        }
    }

    fn name(&self) -> (n: &'static str) {
        "Simple8"
    }
}

} // verus!
