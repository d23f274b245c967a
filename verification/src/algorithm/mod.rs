//! The scheduling models: how the quality of a review changes the ease
//! factor of a card, its interval and its counts, and what is learned
//! across cards.
//!
//! An ease factor is a whole number of hundredths; a mean quality and a
//! learned factor are whole numbers of millionths.

use vstd::prelude::*;
use crate::db::{GlobalState, GlobalStateView};
use crate::fixed::{increment, round_div, rounded_quotient, saturated, successor};
use self::simple8::Simple8;
use self::sm2::Sm2;
use self::sm5::Sm5;
use std::collections::HashMap;

pub mod simple8;
pub mod sm2;
pub mod sm5;

verus! {

/// The scheduling models on offer.
#[derive(Debug, Clone, Copy, PartialEq, Eq, Structural)]
pub enum Algo {
    SM2,
    SM5,
    Simple8,
}

/// How well a card was recalled, from 0 (forgotten) to 5 (perfect).
#[derive(Debug, Clone, Copy, PartialEq, Eq, Hash, Structural)]
pub enum Quality {
    Perfect,
    CorrectWithHesitation,
    CorrectWithDifficulty,
    IncorrectButEasyToRecall,
    IncorrectButRemembered,
    IncorrectAndForgotten,
}

impl Quality {
    /// The ordinal score of this quality, 0 to 5.
    pub open spec fn score(self) -> nat {
        match self {
            Quality::Perfect => 5,
            Quality::CorrectWithHesitation => 4,
            Quality::CorrectWithDifficulty => 3,
            Quality::IncorrectButEasyToRecall => 2,
            Quality::IncorrectButRemembered => 1,
            Quality::IncorrectAndForgotten => 0,
        }
    }

    /// Whether a review of this quality counts as failed: its score is
    /// below 3.
    pub open spec fn is_failure(self) -> bool {
        self.score() < 3
    }

    /// The ordinal score as a machine integer.
    pub fn value(&self) -> (v: u64)
        ensures
            v == self.score(),
            v <= 5,
    {
        match self {
            Quality::Perfect => 5,
            Quality::CorrectWithHesitation => 4,
            Quality::CorrectWithDifficulty => 3,
            Quality::IncorrectButEasyToRecall => 2,
            Quality::IncorrectButRemembered => 1,
            Quality::IncorrectAndForgotten => 0,
        }
    }

    /// Whether a review of this quality counts as failed.
    pub fn failed(&self) -> (f: bool)
        ensures
            f == self.is_failure(),
    {
        match self {
            Quality::IncorrectAndForgotten
            | Quality::IncorrectButRemembered
            | Quality::IncorrectButEasyToRecall => true,
            _ => false,
        }
    }
}

/// The smallest ease factor a card can have, 1.30, in hundredths.
pub const MIN_EASE: u64 = 130;

/// The ease factor of a new card, 2.50, in hundredths.
pub const DEFAULT_EASE: u64 = 250;

/// An ease factor in hundredths, never below 1.30.
#[derive(Debug, Clone, Copy, PartialEq, Eq)]
pub struct EaseFactor {
    hundredths: u64,
}

impl View for EaseFactor {
    type V = u64;

    closed spec fn view(&self) -> u64 {
        self.hundredths
    }
}

impl EaseFactor {
    #[verifier::type_invariant]
    spec fn at_least_minimum(self) -> bool {
        self.hundredths >= MIN_EASE
    }

    /// The ease factor of `hundredths` hundredths, where that is at least
    /// 1.30.
    pub fn from_hundredths(hundredths: u64) -> (r: Option<EaseFactor>)
        ensures
            r is Some <==> hundredths >= MIN_EASE,
            r is Some ==> r.unwrap()@ == hundredths,
    {
        if hundredths >= MIN_EASE {
            Some(EaseFactor { hundredths })
        } else {
            None
        }
    }

    /// The ease factor nearest to `hundredths` hundredths: 1.30 where that
    /// is smaller.
    pub fn at_least(hundredths: u64) -> (r: EaseFactor)
        ensures
            r@ == if hundredths >= MIN_EASE { hundredths } else { MIN_EASE },
    {
        if hundredths >= MIN_EASE {
            EaseFactor { hundredths }
        } else {
            EaseFactor { hundredths: MIN_EASE }
        }
    }

    /// The ease factor in hundredths.
    pub fn hundredths(&self) -> (h: u64)
        ensures
            h == self@,
            h >= MIN_EASE,
    {
        proof {
            use_type_invariant(self);
        }
        self.hundredths
    }
}

/// What the scheduling models remember of one card.
#[derive(Debug, Clone, Copy, PartialEq, Eq)]
pub struct CardState {
    pub ease_factor: EaseFactor,
    /// Days to wait before the next review.
    pub interval: u64,
    /// Successful reviews in a row before this one.
    pub repetitions: u64,
    /// Failed reviews over the card's whole life.
    pub failed_count: u64,
}

/// A card's state as plain numbers.
pub struct CardStateView {
    pub ease: u64,
    pub interval: u64,
    pub repetitions: u64,
    pub failed_count: u64,
}

impl View for CardState {
    type V = CardStateView;

    open spec fn view(&self) -> CardStateView {
        CardStateView {
            ease: self.ease_factor@,
            interval: self.interval,
            repetitions: self.repetitions,
            failed_count: self.failed_count,
        }
    }
}

/// The state of a card that was never reviewed.
pub open spec fn default_state() -> CardStateView {
    CardStateView { ease: DEFAULT_EASE, interval: 0, repetitions: 0, failed_count: 0 }
}

impl Default for CardState {
    fn default() -> (s: CardState)
        ensures
            s@ == default_state(),
    {
        CardState {
            ease_factor: EaseFactor::at_least(DEFAULT_EASE),
            interval: 0,
            repetitions: 0,
            failed_count: 0,
        }
    }
}

/// One whole quality point in millionths.
pub const QUALITY_UNIT: u64 = 1_000_000;

/// The largest mean quality, 5, in millionths.
pub const MAX_MEAN: u64 = 5_000_000;

/// A mean of quality scores in millionths, between 0 and 5.
#[derive(Debug, Clone, Copy, PartialEq, Eq)]
pub struct MeanQuality {
    millionths: u64,
}

impl View for MeanQuality {
    type V = u64;

    closed spec fn view(&self) -> u64 {
        self.millionths
    }
}

impl MeanQuality {
    #[verifier::type_invariant]
    spec fn at_most_five(self) -> bool {
        self.millionths <= MAX_MEAN
    }

    /// The mean of `millionths` millionths, where that is at most 5.
    pub fn from_millionths(millionths: u64) -> (r: Option<MeanQuality>)
        ensures
            r is Some <==> millionths <= MAX_MEAN,
            r is Some ==> r.unwrap()@ == millionths,
    {
        if millionths <= MAX_MEAN {
            Some(MeanQuality { millionths })
        } else {
            None
        }
    }

    fn in_range(millionths: u64) -> (m: MeanQuality)
        requires
            millionths <= MAX_MEAN,
        ensures
            m@ == millionths,
    {
        MeanQuality { millionths }
    }

    /// The mean of the one score `quality`.
    pub fn of(quality: Quality) -> (m: MeanQuality)
        ensures
            m@ == quality.score() * QUALITY_UNIT,
    {
        MeanQuality { millionths: quality.value() * QUALITY_UNIT }
    }

    /// The mean in millionths.
    pub fn millionths(&self) -> (m: u64)
        ensures
            m == self@,
            m <= MAX_MEAN,
    {
        proof {
            use_type_invariant(self);
        }
        self.millionths
    }
}

/// The learned factors: by repetitions, then by ease in hundredths, the
/// factor in millionths.
pub type OptimalFactorMatrix = HashMap<u64, HashMap<u64, u64>>;

/// The learned factors as one map from repetitions and ease to factor.
pub open spec fn factors_of(m: Map<u64, HashMap<u64, u64>>) -> Map<(u64, u64), u64> {
    Map::new(
        |k: (u64, u64)| m.contains_key(k.0) && m[k.0]@.contains_key(k.1),
        |k: (u64, u64)| m[k.0]@[k.1],
    )
}

/// The ease factor, in hundredths, after a review of quality `quality`:
/// `ease + 0.1 - (5 - q) * (0.08 + (5 - q) * 0.02)` for the score `q`, and
/// never less than 1.30.
pub open spec fn ease_after(quality: Quality, ease: u64) -> u64 {
    let d = 5 - quality.score();
    let raised = ease + 10 - d * (8 + d * 2);
    if raised < MIN_EASE {
        MIN_EASE
    } else {
        saturated(raised as nat)
    }
}

/// The ease factor after a review of quality `quality`.
pub fn new_ease_factor(quality: &Quality, ease_factor: EaseFactor) -> (r: EaseFactor)
    ensures
        r@ == ease_after(*quality, ease_factor@),
{
    let d: u64 = 5 - quality.value();
    assert(d * (8 + d * 2) <= 90) by (nonlinear_arith)
        requires
            d <= 5,
    ;
    let drop: u64 = d * (8 + d * 2);
    let ease = ease_factor.hundredths();
    if drop <= 10 {
        let up: u64 = 10 - drop;
        if ease > u64::MAX - up {
            EaseFactor::at_least(u64::MAX)
        } else {
            EaseFactor::at_least(ease + up)
        }
    } else {
        let down: u64 = drop - 10;
        if ease < MIN_EASE + down {
            EaseFactor::at_least(MIN_EASE)
        } else {
            EaseFactor::at_least(ease - down)
        }
    }
}

/// The ease factor, in hundredths, after a run of reviews.
pub open spec fn ease_after_all(qualities: Seq<Quality>, ease: u64) -> u64
    decreases qualities.len(),
{
    if qualities.len() == 0 {
        ease
    } else {
        ease_after(qualities.last(), ease_after_all(qualities.drop_last(), ease))
    }
}

/// Whatever the reviews, the ease factor never falls below 1.30: it is at
/// least 1.30 after each review, and so after any run of them. An ease
/// factor of 1.30 stays where it is when the card is forgotten.
pub proof fn ease_never_below_minimum(qualities: Seq<Quality>, ease: u64)
    ensures
        forall|quality: Quality, any: u64| #[trigger] ease_after(quality, any) >= MIN_EASE,
        ease >= MIN_EASE || qualities.len() > 0 ==> ease_after_all(qualities, ease) >= MIN_EASE,
        ease_after(Quality::IncorrectAndForgotten, MIN_EASE) == MIN_EASE,
    decreases qualities.len(),
{
    if qualities.len() > 0 {
        ease_never_below_minimum(qualities.drop_last(), ease);
    }
    let d = 5 - Quality::IncorrectAndForgotten.score();
    assert(d * (8 + d * 2) == 90) by (nonlinear_arith)
        requires
            d == 5,
    ;
}

/// The running mean of the scores, in millionths, after one more review:
/// the score itself where there was no mean, else
/// `(n * mean + score) / (n + 1)` for the `n` reviews so far.
pub open spec fn mean_after(mean: Option<u64>, total: u64, quality: Quality) -> u64 {
    match mean {
        Some(m) => saturated(
            rounded_quotient(
                total as nat * m as nat + quality.score() * QUALITY_UNIT as nat,
                total as nat + 1,
            ),
        ),
        None => (quality.score() * QUALITY_UNIT) as u64,
    }
}

/// A mean of scores stays between 0 and 5.
pub proof fn mean_stays_in_range(mean: u64, total: u64, quality: Quality)
    requires
        mean <= MAX_MEAN,
    ensures
        mean_after(Some(mean), total, quality) <= MAX_MEAN,
{
    let t = total as nat;
    let n = t * mean as nat + quality.score() * QUALITY_UNIT as nat;
    assert(t * mean as nat <= t * 5_000_000) by (nonlinear_arith)
        requires
            mean <= 5_000_000,
    ;
    assert(n + (t + 1) / 2 < (t + 1) * 5_000_001) by (nonlinear_arith)
        requires
            n <= t * 5_000_000 + 5_000_000,
    ;
    assert((n + (t + 1) / 2) / (t + 1) < 5_000_001) by (nonlinear_arith)
        requires
            n + (t + 1) / 2 < (t + 1) * 5_000_001,
    ;
}

/// The global state after one more review went into the running mean.
pub open spec fn with_review(g: GlobalStateView, quality: Quality) -> GlobalStateView {
    GlobalStateView {
        mean_q: Some(mean_after(g.mean_q, g.total_cards_revised, quality)),
        total_cards_revised: successor(g.total_cards_revised),
        ..g
    }
}

/// Takes one more review into the running mean of the scores.
pub fn update_meanq(global: &mut GlobalState, quality: Quality)
    ensures
        final(global)@ == with_review(old(global)@, quality),
{
    let total = global.total_cards_revised;
    let mean = match global.mean_q {
        Some(m) => {
            let old_mean = m.millionths();
            proof {
                mean_stays_in_range(old_mean, total, quality);
                assert(total as nat * old_mean as nat <= 0xffff_ffff_ffff_ffff * 5_000_000)
                    by (nonlinear_arith)
                    requires
                        total <= 0xffff_ffff_ffff_ffff,
                        old_mean <= 5_000_000,
                ;
            }
            let sum: u128 = total as u128 * old_mean as u128 + (quality.value() * QUALITY_UNIT) as u128;
            MeanQuality::in_range(round_div(sum, total as u128 + 1))
        },
        None => MeanQuality::of(quality),
    };
    global.total_cards_revised = increment(total);
    global.mean_q = Some(mean);
}

/// A scheduling model: how a review changes what is remembered of a card
/// and, for some models, of all cards.
pub trait Algorithm {
    /// What is remembered of the card after a review.
    spec fn state_after(
        &self,
        quality: Quality,
        state: CardStateView,
        global: GlobalStateView,
    ) -> CardStateView;

    /// The learned factors after a review.
    spec fn factors_after(
        &self,
        quality: Quality,
        state: CardStateView,
        global: GlobalStateView,
    ) -> Map<(u64, u64), u64>;

    /// The model's name.
    spec fn label(&self) -> Seq<char>;

    /// Takes a review of quality `quality` into `state` and `global`. Only
    /// the learned factors of `global` can change.
    fn update_state(&self, quality: &Quality, state: &mut CardState, global: &mut GlobalState)
        ensures
            final(state)@ == self.state_after(*quality, old(state)@, old(global)@),
            final(global)@ == (GlobalStateView {
                factors: self.factors_after(*quality, old(state)@, old(global)@),
                ..old(global)@
            }),
    ;

    fn name(&self) -> (n: &'static str)
        ensures
            n@ == self.label(),
    ;
}

/// Any one of the scheduling models.
#[derive(Debug, Clone, Copy, PartialEq, Eq, Structural)]
pub enum Scheduler {
    Sm2(Sm2),
    Sm5(Sm5),
    Simple8(Simple8),
}

impl Algorithm for Scheduler {
    open spec fn state_after(
        &self,
        quality: Quality,
        state: CardStateView,
        global: GlobalStateView,
    ) -> CardStateView {
        match self {
            Scheduler::Sm2(a) => a.state_after(quality, state, global),
            Scheduler::Sm5(a) => a.state_after(quality, state, global),
            Scheduler::Simple8(a) => a.state_after(quality, state, global),
        }
    }

    open spec fn factors_after(
        &self,
        quality: Quality,
        state: CardStateView,
        global: GlobalStateView,
    ) -> Map<(u64, u64), u64> {
        match self {
            Scheduler::Sm2(a) => a.factors_after(quality, state, global),
            Scheduler::Sm5(a) => a.factors_after(quality, state, global),
            Scheduler::Simple8(a) => a.factors_after(quality, state, global),
        }
    }

    open spec fn label(&self) -> Seq<char> {
        match self {
            Scheduler::Sm2(a) => a.label(),
            Scheduler::Sm5(a) => a.label(),
            Scheduler::Simple8(a) => a.label(),
        }
    }

    fn update_state(&self, quality: &Quality, state: &mut CardState, global: &mut GlobalState) {
        match self {
            Scheduler::Sm2(a) => a.update_state(quality, state, global),
            Scheduler::Sm5(a) => a.update_state(quality, state, global),
            Scheduler::Simple8(a) => a.update_state(quality, state, global),
        }
    }

    fn name(&self) -> (n: &'static str) {
        match self {
            Scheduler::Sm2(a) => a.name(),
            Scheduler::Sm5(a) => a.name(),
            Scheduler::Simple8(a) => a.name(),
        }
    }
}

/// The scheduling model that `algo` names.
pub fn new_algorithm(algo: Algo) -> (a: Scheduler)
    ensures
        a == match algo {
            Algo::SM2 => Scheduler::Sm2(Sm2 {  }),
            Algo::SM5 => Scheduler::Sm5(Sm5 {  }),
            Algo::Simple8 => Scheduler::Simple8(Simple8 {  }),
        },
{
    match algo {
        Algo::SM2 => Scheduler::Sm2(Sm2 {  }),
        Algo::SM5 => Scheduler::Sm5(Sm5 {  }),
        Algo::Simple8 => Scheduler::Simple8(Simple8 {  }),
    }
}

/// No model lets a card's ease factor fall below 1.30, whatever the
/// review, and a failed review starts the card over under every model.
pub proof fn every_model_keeps_the_invariants(
    model: Scheduler,
    quality: Quality,
    state: CardStateView,
    global: GlobalStateView,
)
    requires
        state.ease >= MIN_EASE,
    ensures
        model.state_after(quality, state, global).ease >= MIN_EASE,
        quality.is_failure() ==> model.state_after(quality, state, global).repetitions == 0
            && model.state_after(quality, state, global).interval == 0,
        !quality.is_failure() ==> model.state_after(quality, state, global).repetitions
            == successor(state.repetitions),
{
}

/// What was learned is never forgotten: a review only adds to the learned
/// factors or replaces one of them, under every model.
pub proof fn learned_factors_only_grow(
    model: Scheduler,
    quality: Quality,
    state: CardStateView,
    global: GlobalStateView,
)
    ensures
        forall|k: (u64, u64)| #[trigger]
            global.factors.contains_key(k) ==> model.factors_after(
                quality,
                state,
                global,
            ).contains_key(k),
{
}

} // verus!
