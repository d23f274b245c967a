//! A review session: the cards are shown one after another, each is
//! revealed and scored, and at the end the cards go back to the store, once.

use vstd::prelude::*;
use super::Key;
use crate::algorithm::{with_review, Algorithm, Quality, Scheduler};
use crate::db::{entry_views, CardEntry, CardEntryView, GlobalState, GlobalStateView};
use crate::session::{review_card_at, reviewed};
use crate::time::{now, Timestamp};

verus! {

/// Where the session stands on the screen.
#[derive(Debug, Clone, Copy, PartialEq, Eq, Structural)]
pub struct UiState {
    /// The position of the card that is shown.
    pub current_card: usize,
    /// The session is over.
    pub exit: bool,
    /// The key bindings are shown in place of the card.
    pub help: bool,
    /// The response of the card is shown.
    pub revealed: bool,
}

/// A review session.
#[derive(Debug)]
pub struct App {
    pub algorithm: Scheduler,
    pub cards: Vec<CardEntry>,
    pub global_state: GlobalState,
    /// The number of failures that makes a card a leech.
    pub leech_threshold: usize,
    /// The time after which the session ends, in the unit in which the
    /// time that has passed is given.
    pub max_duration: usize,
    pub tags: Vec<String>,
    /// For each card, whether it is shown with prompt and response
    /// exchanged.
    pub reverse_map: Vec<bool>,
    pub ui: UiState,
}

/// What a step of the session can change, as a mathematical value.
pub struct AppView {
    pub cards: Seq<CardEntryView>,
    pub global_state: GlobalStateView,
    pub ui: UiState,
}

impl View for App {
    type V = AppView;

    open spec fn view(&self) -> AppView {
        AppView { cards: entry_views(self.cards@), global_state: self.global_state@, ui: self.ui }
    }
}

/// What a step leaves, and the cards that it hands back for the store, if
/// it is the step that ends the session.
pub struct Outcome {
    pub app: AppView,
    pub flush: Option<Seq<CardEntryView>>,
}

/// The end of the session: the cards are handed back and the session holds
/// none any more. A session that is over hands back nothing.
pub open spec fn after_exit(app: AppView) -> Outcome {
    if app.ui.exit {
        Outcome { app, flush: None }
    } else {
        Outcome {
            app: AppView { cards: Seq::empty(), ui: UiState { exit: true, ..app.ui }, ..app },
            flush: Some(app.cards),
        }
    }
}

/// A score of quality `quality` for the card that is shown, given at
/// `now`.
///
/// The response is hidden again. With no cards nothing else happens.
/// Where no card is left to show, the session ends. Else the score goes
/// into the running mean, the card that is shown is reviewed, and the
/// next one is shown.
pub open spec fn after_score(
    model: Scheduler,
    leech_threshold: usize,
    app: AppView,
    quality: Quality,
    now: Timestamp,
) -> Outcome {
    let hidden = AppView { ui: UiState { revealed: false, ..app.ui }, ..app };
    if app.cards.len() == 0 {
        Outcome { app: hidden, flush: None }
    } else if app.ui.current_card >= app.cards.len() {
        after_exit(hidden)
    } else {
        let i = app.ui.current_card as int;
        let counted = with_review(app.global_state, quality);
        Outcome {
            app: AppView {
                cards: app.cards.update(
                    i,
                    reviewed(
                        app.cards[i],
                        model.state_after(quality, app.cards[i].state, counted),
                        leech_threshold,
                        now,
                    ),
                ),
                global_state: GlobalStateView {
                    factors: model.factors_after(quality, app.cards[i].state, counted),
                    ..counted
                },
                ui: UiState { revealed: false, current_card: (i + 1) as usize, ..app.ui },
            },
            flush: None,
        }
    }
}

/// The score that a key stands for: a digit from 0 to 5, or the key below
/// it on the home row.
pub open spec fn score_of_key(c: char) -> Option<Quality> {
    if c == '0' || c == 'a' {
        Some(Quality::IncorrectAndForgotten)
    } else if c == '1' || c == 'd' {
        Some(Quality::IncorrectButRemembered)
    } else if c == '2' || c == 'g' {
        Some(Quality::IncorrectButEasyToRecall)
    } else if c == '3' || c == 'j' {
        Some(Quality::CorrectWithDifficulty)
    } else if c == '4' || c == 'l' {
        Some(Quality::CorrectWithHesitation)
    } else if c == '5' || c == '\'' {
        Some(Quality::Perfect)
    } else {
        None
    }
}

/// What a key does, pressed at `now`.
///
/// `q` closes the key bindings where they are shown, else it ends the
/// session. `?` shows or hides the key bindings. While they are shown no
/// other key does anything. The space bar reveals the response, and a
/// score key scores the card.
pub open spec fn after_key(
    model: Scheduler,
    leech_threshold: usize,
    app: AppView,
    key: Key,
    now: Timestamp,
) -> Outcome {
    match key {
        Key::Char(c) => if c == 'q' || c == 'Q' {
            if app.ui.help {
                Outcome { app: AppView { ui: UiState { help: false, ..app.ui }, ..app }, flush: None }
            } else {
                after_exit(app)
            }
        } else if c == '?' {
            Outcome {
                app: AppView { ui: UiState { help: !app.ui.help, ..app.ui }, ..app },
                flush: None,
            }
        } else if app.ui.help {
            Outcome { app, flush: None }
        } else if c == ' ' {
            Outcome { app: AppView { ui: UiState { revealed: true, ..app.ui }, ..app }, flush: None }
        } else {
            match score_of_key(c) {
                Some(quality) => after_score(model, leech_threshold, app, quality, now),
                None => Outcome { app, flush: None },
            }
        },
        _ => Outcome { app, flush: None },
    }
}

/// Whether a step's result is what `outcome` says.
pub open spec fn is_outcome(app: AppView, flush: Option<Vec<CardEntry>>, outcome: Outcome) -> bool {
    &&& app == outcome.app
    &&& match flush {
        Some(cards) => outcome.flush == Some(entry_views(cards@)),
        None => outcome.flush is None,
    }
}

fn quality_of(c: char) -> (q: Option<Quality>)
    ensures
        q == score_of_key(c),
{
    if c == '0' || c == 'a' {
        Some(Quality::IncorrectAndForgotten)
    } else if c == '1' || c == 'd' {
        Some(Quality::IncorrectButRemembered)
    } else if c == '2' || c == 'g' {
        Some(Quality::IncorrectButEasyToRecall)
    } else if c == '3' || c == 'j' {
        Some(Quality::CorrectWithDifficulty)
    } else if c == '4' || c == 'l' {
        Some(Quality::CorrectWithHesitation)
    } else if c == '5' || c == '\'' {
        Some(Quality::Perfect)
    } else {
        None
    }
}

impl App {
    /// Whether a step changed nothing but what `AppView` shows.
    pub open spec fn same_setup(&self, other: &App) -> bool {
        &&& self.algorithm == other.algorithm
        &&& self.leech_threshold == other.leech_threshold
        &&& self.max_duration == other.max_duration
        &&& self.tags == other.tags
        &&& self.reverse_map == other.reverse_map
    }

    /// A session that shows the first of `cards`.
    pub fn new(
        algorithm: Scheduler,
        cards: Vec<CardEntry>,
        global_state: GlobalState,
        leech_threshold: usize,
        max_duration: usize,
        tags: Vec<String>,
        reverse_map: Vec<bool>,
    ) -> (app: App)
        ensures
            app.algorithm == algorithm,
            app.cards == cards,
            app.global_state == global_state,
            app.leech_threshold == leech_threshold,
            app.max_duration == max_duration,
            app.tags == tags,
            app.reverse_map == reverse_map,
            app.ui == (UiState { current_card: 0, exit: false, help: false, revealed: false }),
    {
        App {
            algorithm,
            cards,
            global_state,
            leech_threshold,
            max_duration,
            tags,
            reverse_map,
            ui: UiState { current_card: 0, exit: false, help: false, revealed: false },
        }
    }

    /// Ends the session and hands back the cards for the store. A session
    /// that is over hands back nothing.
    pub fn exit(&mut self) -> (flush: Option<Vec<CardEntry>>)
        ensures
            is_outcome(final(self)@, flush, after_exit(old(self)@)),
            final(self).same_setup(old(self)),
    {
        if self.ui.exit {
            None
        } else {
            let mut cards: Vec<CardEntry> = Vec::new();
            std::mem::swap(&mut self.cards, &mut cards);
            self.ui.exit = true;
            assert(entry_views(self.cards@) =~= Seq::<CardEntryView>::empty());
            Some(cards)
        }
    }

    /// Scores the card that is shown, at `now`.
    pub fn update_state_at(&mut self, quality: Quality, now: Timestamp) -> (flush: Option<
        Vec<CardEntry>,
    >)
        ensures
            is_outcome(
                final(self)@,
                flush,
                after_score(
                    old(self).algorithm,
                    old(self).leech_threshold,
                    old(self)@,
                    quality,
                    now,
                ),
            ),
            final(self).same_setup(old(self)),
    {
        self.ui.revealed = false;
        let current_card = self.ui.current_card;
        if self.cards.len() == 0 {
            return None;
        }
        if current_card >= self.cards.len() {
            self.exit()
        } else {
            self.ui.current_card = current_card + 1;
            let ghost before = entry_views(self.cards@);
            review_card_at(
                &self.algorithm,
                &mut self.cards[current_card],
                quality,
                &mut self.global_state,
                self.leech_threshold,
                now,
            );
            assert(entry_views(self.cards@) =~= before.update(
                current_card as int,
                self.cards[current_card as int]@,
            ));
            None
        }
    }

    /// Scores the card that is shown, now.
    pub fn update_state(&mut self, quality: Quality) -> (flush: Option<Vec<CardEntry>>)
        ensures
            exists|now: Timestamp|
                is_outcome(
                    final(self)@,
                    flush,
                    #[trigger] after_score(
                        old(self).algorithm,
                        old(self).leech_threshold,
                        old(self)@,
                        quality,
                        now,
                    ),
                ),
            final(self).same_setup(old(self)),
    {
        let t = now();
        self.update_state_at(quality, t)
    }

    /// Takes a key that was pressed at `now`.
    pub fn handle_key_event_at(&mut self, key: Key, now: Timestamp) -> (flush: Option<
        Vec<CardEntry>,
    >)
        ensures
            is_outcome(
                final(self)@,
                flush,
                after_key(old(self).algorithm, old(self).leech_threshold, old(self)@, key, now),
            ),
            final(self).same_setup(old(self)),
    {
        match key {
            Key::Char(c) => {
                if c == 'q' || c == 'Q' {
                    if self.ui.help {
                        self.ui.help = false;
                        None
                    } else {
                        self.exit()
                    }
                } else if c == '?' {
                    self.ui.help = !self.ui.help;
                    None
                } else if self.ui.help {
                    None
                } else if c == ' ' {
                    self.ui.revealed = true;
                    None
                } else {
                    match quality_of(c) {
                        Some(quality) => self.update_state_at(quality, now),
                        None => None,
                    }
                }
            },
            _ => None,
        }
    }

    /// Takes a key that was pressed just now.
    pub fn handle_key_event(&mut self, key: Key) -> (flush: Option<Vec<CardEntry>>)
        ensures
            exists|now: Timestamp|
                is_outcome(
                    final(self)@,
                    flush,
                    #[trigger] after_key(
                        old(self).algorithm,
                        old(self).leech_threshold,
                        old(self)@,
                        key,
                        now,
                    ),
                ),
            final(self).same_setup(old(self)),
    {
        let t = now();
        self.handle_key_event_at(key, t)
    }

    /// Ends the session where the time that has passed has reached the
    /// session's limit.
    pub fn check_duration(&mut self, elapsed: u64) -> (flush: Option<Vec<CardEntry>>)
        ensures
            is_outcome(
                final(self)@,
                flush,
                if elapsed >= old(self).max_duration {
                    after_exit(old(self)@)
                } else {
                    Outcome { app: old(self)@, flush: None }
                },
            ),
            final(self).same_setup(old(self)),
    {
        if elapsed as u128 >= self.max_duration as u128 {
            self.exit()
        } else {
            None
        }
    }

    /// Whether the card that is shown has prompt and response exchanged.
    pub fn is_reversed(&self) -> (r: bool)
        ensures
            r == (self.ui.current_card < self.reverse_map.len()
                && self.reverse_map[self.ui.current_card as int]),
    {
        self.ui.current_card < self.reverse_map.len() && self.reverse_map[self.ui.current_card]
    }
}

/// The cards are handed back exactly when the session ends: a step hands
/// them back if and only if it is the one that ends the session, and a
/// session that is over hands back nothing, whatever the key.
pub proof fn cards_are_handed_back_once(
    model: Scheduler,
    leech_threshold: usize,
    app: AppView,
    key: Key,
    now: Timestamp,
)
    ensures
        after_key(model, leech_threshold, app, key, now).flush is Some <==> (!app.ui.exit
            && after_key(model, leech_threshold, app, key, now).app.ui.exit),
        app.ui.exit ==> after_key(model, leech_threshold, app, key, now).app.ui.exit,
        after_key(model, leech_threshold, app, key, now).flush is Some ==> after_key(
            model,
            leech_threshold,
            app,
            key,
            now,
        ).flush == Some(app.cards),
{
}

/// While the key bindings are shown, no key but `q` and `?` does anything.
pub proof fn help_blocks_the_other_keys(
    model: Scheduler,
    leech_threshold: usize,
    app: AppView,
    key: Key,
    now: Timestamp,
)
    requires
        app.ui.help,
        key != Key::Char('q'),
        key != Key::Char('Q'),
        key != Key::Char('?'),
    ensures
        after_key(model, leech_threshold, app, key, now) == (Outcome { app, flush: None }),
{
}

} // verus!
