//! The classic model.

use vstd::prelude::*;
use super::{ease_after, new_ease_factor, Algorithm, CardState, CardStateView, Quality};
use crate::db::{GlobalState, GlobalStateView};
use crate::fixed::{increment, product_fits, round_div, rounded_quotient, saturated, successor};

verus! {

/// The classic model with two parameters: an ease factor and an interval.
#[derive(Debug, Clone, Copy, PartialEq, Eq, Structural)]
pub struct Sm2 {}

/// The interval after a successful review: one day the first time, six
/// days the second, and from then on the last interval times the ease
/// factor.
pub open spec fn sm2_interval(state: CardStateView) -> u64 {
    if state.repetitions == 0 {
        1
    } else if state.repetitions == 1 {
        6
    } else {
        saturated(rounded_quotient(state.interval as nat * state.ease as nat, 100))
    }
}

/// What the classic model remembers of a card after a review. A failed
/// review starts the card over and leaves its ease factor alone.
pub open spec fn sm2_next(quality: Quality, state: CardStateView) -> CardStateView {
    if quality.is_failure() {
        CardStateView {
            repetitions: 0,
            interval: 0,
            failed_count: successor(state.failed_count),
            ..state
        }
    } else {
        CardStateView {
            interval: sm2_interval(state),
            repetitions: successor(state.repetitions),
            ease: ease_after(quality, state.ease),
            ..state
        }
    }
}

impl Algorithm for Sm2 {
    open spec fn state_after(
        &self,
        quality: Quality,
        state: CardStateView,
        global: GlobalStateView,
    ) -> CardStateView {
        sm2_next(quality, state)
    }

    open spec fn factors_after(
        &self,
        quality: Quality,
        state: CardStateView,
        global: GlobalStateView,
    ) -> Map<(u64, u64), u64> {
        global.factors
    }

    open spec fn label(&self) -> Seq<char> {
        "SM2"@
    }

    fn update_state(&self, quality: &Quality, state: &mut CardState, global: &mut GlobalState) {
        if quality.failed() {
            state.repetitions = 0;
            state.interval = 0;
            state.failed_count = increment(state.failed_count);
        } else {
            if state.repetitions == 0 {
                state.interval = 1;
            } else if state.repetitions == 1 {
                state.interval = 6;
            } else {
                let ease = state.ease_factor.hundredths();
                proof {
                    product_fits(state.interval, ease);
                }
                state.interval = round_div(state.interval as u128 * ease as u128, 100);
            }
            state.repetitions = increment(state.repetitions);
            state.ease_factor = new_ease_factor(quality, state.ease_factor);
        }
    }

    fn name(&self) -> (n: &'static str) {
        "SM2"
    }
}

} // verus!
