//! The model that learns, for each number of repetitions and each ease
//! factor, by how much an interval should grow.

use vstd::prelude::*;
use super::{
    ease_after, factors_of, new_ease_factor, Algorithm, CardState, CardStateView, EaseFactor,
    OptimalFactorMatrix, Quality,
};
use crate::db::{GlobalState, GlobalStateView};
use crate::fixed::{increment, product_fits, round_div, rounded_quotient, saturated, successor};
use std::collections::HashMap;

verus! {

broadcast use vstd::std_specs::hash::group_hash_axioms;

/// The model with five parameters, which learns over all cards by how much
/// an interval should grow.
#[derive(Debug, Clone, Copy, PartialEq, Eq, Structural)]
pub struct Sm5 {}

/// One whole factor in millionths.
pub const FACTOR_UNIT: u64 = 1_000_000;

/// The factor of a card's first review where none was learned, 4.0, in
/// millionths.
pub const FIRST_FACTOR: u64 = 4_000_000;

/// The factor, in millionths, for a pair of repetitions and ease for which
/// none was learned: 4.0 for a card's first review, else the ease itself.
pub open spec fn default_factor(repetitions: u64, ease: u64) -> u64 {
    if repetitions == 0 {
        FIRST_FACTOR
    } else {
        saturated(ease as nat * 10_000)
    }
}

/// The factor, in millionths, for a pair of repetitions and ease in
/// hundredths: the learned one where there is one.
pub open spec fn optimal_factor(factors: Map<(u64, u64), u64>, repetitions: u64, ease: u64) -> u64 {
    if factors.contains_key((repetitions, ease)) {
        factors[(repetitions, ease)]
    } else {
        default_factor(repetitions, ease)
    }
}

/// A factor moved half of the way towards `factor * (0.72 + 0.07 * q)` for
/// the score `q`, which is `factor * (0.86 + 0.035 * q)`.
pub open spec fn blended(factor: u64, quality: Quality) -> u64 {
    saturated(rounded_quotient(factor as nat * (860 + 35 * quality.score()), 1000))
}

/// The learned factors after a review: the factor for the card's
/// repetitions and old ease, blended with the review's quality, stands
/// under the repetitions and the new ease. This holds of a failed review
/// too.
pub open spec fn sm5_factors(
    quality: Quality,
    state: CardStateView,
    factors: Map<(u64, u64), u64>,
) -> Map<(u64, u64), u64> {
    factors.insert(
        (state.repetitions, ease_after(quality, state.ease)),
        blended(optimal_factor(factors, state.repetitions, state.ease), quality),
    )
}

/// The interval that a factor gives: the factor itself for a card's first
/// review, else the last interval times the factor.
pub open spec fn scaled_interval(last_interval: u64, repetitions: u64, factor: u64) -> u64 {
    if repetitions == 0 {
        saturated(rounded_quotient(factor as nat, FACTOR_UNIT as nat))
    } else {
        saturated(rounded_quotient(last_interval as nat * factor as nat, FACTOR_UNIT as nat))
    }
}

/// What the model remembers of a card after a review, where `factors` are
/// the learned factors before it. A failed review starts the card over; it
/// leaves the card's ease factor and its count of failures alone.
pub open spec fn sm5_next(
    quality: Quality,
    state: CardStateView,
    factors: Map<(u64, u64), u64>,
) -> CardStateView {
    if quality.is_failure() {
        CardStateView { repetitions: 0, interval: 0, ..state }
    } else {
        CardStateView {
            interval: scaled_interval(
                state.interval,
                state.repetitions,
                optimal_factor(
                    sm5_factors(quality, state, factors),
                    state.repetitions,
                    ease_after(quality, state.ease),
                ),
            ),
            repetitions: successor(state.repetitions),
            ease: ease_after(quality, state.ease),
            ..state
        }
    }
}

/// The factor that a successful review reads back is the one that the
/// review has just stored.
pub proof fn review_reads_its_own_factor(
    quality: Quality,
    state: CardStateView,
    factors: Map<(u64, u64), u64>,
)
    ensures
        optimal_factor(
            sm5_factors(quality, state, factors),
            state.repetitions,
            ease_after(quality, state.ease),
        ) == blended(optimal_factor(factors, state.repetitions, state.ease), quality),
{
}

/// A perfect review raises every factor of at least 15 millionths that is
/// not so large that the result saturates.
pub proof fn perfect_review_raises_factor(factor: u64)
    requires
        15 <= factor,
        factor as nat * 1035 + 500 < 1000 * u64::MAX as nat,
    ensures
        blended(factor, Quality::Perfect) > factor,
{
    let n = factor as nat * 1035;
    assert((n + 500) / 1000 > factor) by (nonlinear_arith)
        requires
            n == factor as nat * 1035,
            factor >= 15,
    ;
}

fn new_optimal_factor(optimal_factor: u64, quality: &Quality) -> (r: u64)
    ensures
        r == blended(optimal_factor, *quality),
{
    let weight: u64 = 860 + 35 * quality.value();
    proof {
        product_fits(optimal_factor, weight);
    }
    round_div(optimal_factor as u128 * weight as u128, 1000)
}

fn update_optimal_factor_matrix(
    repetitions: u64,
    ease_factor: EaseFactor,
    optimal_factor: u64,
    of_matrix: &mut OptimalFactorMatrix,
)
    ensures
        factors_of(final(of_matrix)@) == factors_of(old(of_matrix)@).insert(
            (repetitions, ease_factor@),
            optimal_factor,
        ),
{
    let mut factors = match of_matrix.remove(&repetitions) {
        Some(f) => f,
        None => HashMap::new(),
    };
    factors.insert(ease_factor.hundredths(), optimal_factor);
    of_matrix.insert(repetitions, factors);
    assert(factors_of(of_matrix@) =~= factors_of(old(of_matrix)@).insert(
        (repetitions, ease_factor@),
        optimal_factor,
    ));
}

/// The factor, in millionths, for a pair of repetitions and ease: the
/// learned one where there is one, else 4.0 for a card's first review and
/// the ease itself for a later one.
pub fn get_optimal_factor(
    repetitions: u64,
    ease_factor: EaseFactor,
    of_matrix: &OptimalFactorMatrix,
) -> (r: u64)
    ensures
        r == optimal_factor(factors_of(of_matrix@), repetitions, ease_factor@),
{
    let ease = ease_factor.hundredths();
    let learned = match of_matrix.get(&repetitions) {
        Some(factors) => match factors.get(&ease) {
            Some(f) => Some(*f),
            None => None,
        },
        None => None,
    };
    match learned {
        Some(f) => f,
        None => {
            if repetitions == 0 {
                FIRST_FACTOR
            } else {
                proof {
                    product_fits(ease, 10_000);
                }
                round_div(ease as u128 * 10_000, 1)
            }
        },
    }
}

fn repetition_interval(
    last_interval: u64,
    repetitions: u64,
    ease_factor: EaseFactor,
    of_matrix: &OptimalFactorMatrix,
) -> (r: u64)
    ensures
        r == scaled_interval(
            last_interval,
            repetitions,
            optimal_factor(factors_of(of_matrix@), repetitions, ease_factor@),
        ),
{
    let factor = get_optimal_factor(repetitions, ease_factor, of_matrix);
    if repetitions == 0 {
        round_div(factor as u128, FACTOR_UNIT as u128)
    } else {
        proof {
            product_fits(last_interval, factor);
        }
        round_div(last_interval as u128 * factor as u128, FACTOR_UNIT as u128)
    }
}

impl Algorithm for Sm5 {
    open spec fn state_after(
        &self,
        quality: Quality,
        state: CardStateView,
        global: GlobalStateView,
    ) -> CardStateView {
        sm5_next(quality, state, global.factors)
    }

    open spec fn factors_after(
        &self,
        quality: Quality,
        state: CardStateView,
        global: GlobalStateView,
    ) -> Map<(u64, u64), u64> {
        sm5_factors(quality, state, global.factors)
    }

    open spec fn label(&self) -> Seq<char> {
        "SM5"@
    }

    fn update_state(&self, quality: &Quality, state: &mut CardState, global: &mut GlobalState) {
        let new_ef = new_ease_factor(quality, state.ease_factor);
        let of = get_optimal_factor(
            state.repetitions,
            state.ease_factor,
            &global.optimal_factor_matrix,
        );
        let new_of = new_optimal_factor(of, quality);
        update_optimal_factor_matrix(
            state.repetitions,
            new_ef,
            new_of,
            &mut global.optimal_factor_matrix,
        );
        if quality.failed() {
            state.repetitions = 0;
            state.interval = 0;
        } else {
            state.interval = repetition_interval(
                state.interval,
                state.repetitions,
                new_ef,
                &global.optimal_factor_matrix,
            );
            state.repetitions = increment(state.repetitions);
            state.ease_factor = new_ef;
        }
    }

    fn name(&self) -> (n: &'static str) {
        "SM5"
    }
}

} // verus!
