//! The audit of the store: orphans and leeches are shown one after
//! another, and each can be deleted after a question.

use vstd::prelude::*;
use super::Key;
use crate::card::CardId;
use crate::db::{
    choice_keeps_entries, distinct_ids, entries_are_the_values, entry_views, CardDb, CardEntry,
    CardEntryView,
};

verus! {

/// An audit.
#[derive(Debug)]
pub struct App {
    pub cards: Vec<CardEntry>,
    /// The position of the card that is shown.
    pub current_card: usize,
    /// The audit is over.
    pub exit: bool,
    /// The question whether to delete the card is shown.
    pub sure: bool,
    /// The card that is being deleted from the store.
    pub pending: Option<CardEntry>,
}

/// An audit as a mathematical value.
pub struct AppView {
    pub cards: Seq<CardEntryView>,
    pub current_card: usize,
    pub exit: bool,
    pub sure: bool,
    pub pending: Option<CardEntryView>,
}

impl View for App {
    type V = AppView;

    open spec fn view(&self) -> AppView {
        AppView {
            cards: entry_views(self.cards@),
            current_card: self.current_card,
            exit: self.exit,
            sure: self.sure,
            pending: match self.pending {
                Some(e) => Some(e@),
                None => None,
            },
        }
    }
}

/// Whether an entry belongs in an audit: it is an orphan or a leech.
pub open spec fn needs_audit(entry: CardEntryView) -> bool {
    entry.orphan || entry.leech
}

/// The entries of a store that belong in an audit, in the order the store
/// keeps them.
pub open spec fn audited(entries: Seq<CardEntryView>) -> Seq<CardEntryView> {
    entries.filter(|e: CardEntryView| needs_audit(e))
}

/// The entries of the store that belong in an audit.
pub fn audit_cards(db: CardDb) -> (cards: Vec<CardEntry>)
    ensures
        entry_views(cards@) == audited(db.seq()),
        distinct_ids(entry_views(cards@)),
        forall|e: CardEntryView| #[trigger]
            entry_views(cards@).contains(e) <==> db@.contains_key(e.card.id) && db@[e.card.id]
                == e && needs_audit(e),
{
    let ghost all = db.seq();
    let entries = db.into_values();
    proof {
        choice_keeps_entries(all, |e: CardEntryView| needs_audit(e));
        assert forall|e: CardEntryView| #[trigger]
            audited(all).contains(e) <==> db@.contains_key(e.card.id) && db@[e.card.id] == e
                && needs_audit(e) by {
            entries_are_the_values(all, e);
        }
    }
    let mut cards: Vec<CardEntry> = Vec::new();
    proof {
        reveal(Seq::filter);
        assert(all.take(0) =~= Seq::<CardEntryView>::empty());
    }
    for entry in it: entries.into_iter()
        invariant
            it.seq() == entries@,
            all == entry_views(entries@),
            entry_views(cards@) == audited(all.take(it.index() as int)),
    {
        proof {
            reveal(Seq::filter);
            let k = it.index() as int;
            assert(all.take(k + 1).drop_last() =~= all.take(k));
            assert(all.take(k + 1).last() == entry@);
        }
        if entry.orphan || entry.leech {
            let ghost before = entry_views(cards@);
            cards.push(entry);
            assert(entry_views(cards@) =~= before.push(entry@));
        }
    }
    assert(all.take(all.len() as int) =~= all);
    cards
}

/// The answer yes to the question whether to delete the card that is
/// shown: the card leaves the list. A leech is not deleted; it goes to the
/// end of the list and the question stays. Any other card waits for the
/// store to delete it.
pub open spec fn after_yes(app: AppView) -> AppView {
    if !app.sure || app.current_card >= app.cards.len() {
        app
    } else {
        let card = app.cards[app.current_card as int];
        let rest = app.cards.remove(app.current_card as int);
        if card.leech {
            AppView { cards: rest.push(card), ..app }
        } else {
            AppView { cards: rest, pending: Some(card), ..app }
        }
    }
}

/// What a key does.
///
/// `q` ends the audit. `d` asks whether to delete the card that is shown,
/// `n` takes the question back and `y` answers it. The arrows, and the
/// keys `h`, `k`, `l` and `j`, move to the card before or behind. While a
/// card waits for the store, no key does anything.
pub open spec fn after_key(app: AppView, key: Key) -> AppView {
    if app.pending is Some {
        app
    } else if key == Key::Char('q') || key == Key::Char('Q') {
        AppView { exit: true, ..app }
    } else if key == Key::Char('d') || key == Key::Char('D') {
        if app.cards.len() > 0 {
            AppView { sure: true, ..app }
        } else {
            app
        }
    } else if key == Key::Char('n') || key == Key::Char('N') {
        AppView { sure: false, ..app }
    } else if key == Key::Char('y') || key == Key::Char('Y') {
        after_yes(app)
    } else if key == Key::Left || key == Key::Char('h') || key == Key::Char('k') {
        if app.cards.len() > 0 && app.current_card > 0 {
            AppView { current_card: (app.current_card - 1) as usize, ..app }
        } else {
            app
        }
    } else if key == Key::Right || key == Key::Char('l') || key == Key::Char('j') {
        if app.cards.len() > 0 && app.current_card < app.cards.len() - 1 {
            AppView { current_card: (app.current_card + 1) as usize, ..app }
        } else {
            app
        }
    } else {
        app
    }
}

/// What the store's answer does to a card that waits for it. A card that
/// was deleted is gone, and the last card is shown where the list has
/// become too short; one that was not deleted is back in its place. The
/// question is over either way.
pub open spec fn after_delete(app: AppView, deleted: bool) -> AppView {
    match app.pending {
        None => app,
        Some(card) => if deleted {
            AppView {
                current_card: if app.current_card >= app.cards.len() && app.cards.len() > 0 {
                    (app.cards.len() - 1) as usize
                } else {
                    app.current_card
                },
                sure: false,
                pending: None,
                ..app
            }
        } else {
            AppView {
                cards: if app.current_card <= app.cards.len() {
                    app.cards.insert(app.current_card as int, card)
                } else {
                    app.cards.push(card)
                },
                sure: false,
                pending: None,
                ..app
            }
        },
    }
}

impl App {
    /// An audit that shows the first of `cards`.
    pub fn new(cards: Vec<CardEntry>) -> (app: App)
        ensures
            app@ == (AppView {
                cards: entry_views(cards@),
                current_card: 0,
                exit: false,
                sure: false,
                pending: None,
            }),
    {
        App { cards, current_card: 0, exit: false, sure: false, pending: None }
    }

    /// Takes a key, and says which card the store is to delete, if any.
    pub fn handle_key_event(&mut self, key: Key) -> (delete: Option<CardId>)
        ensures
            final(self)@ == after_key(old(self)@, key),
            match delete {
                Some(id) => old(self)@.pending is None && final(self)@.pending is Some && id@
                    == final(self)@.pending.unwrap().card.id,
                None => final(self)@.pending == old(self)@.pending,
            },
    {
        if self.pending.is_some() {
            return None;
        }
        match key {
            Key::Char(c) => {
                if c == 'q' || c == 'Q' {
                    self.exit = true;
                    None
                } else if c == 'd' || c == 'D' {
                    if self.cards.len() > 0 {
                        self.sure = true;
                    }
                    None
                } else if c == 'n' || c == 'N' {
                    self.sure = false;
                    None
                } else if c == 'y' || c == 'Y' {
                    self.confirm()
                } else if c == 'h' || c == 'k' {
                    self.step_back();
                    None
                } else if c == 'l' || c == 'j' {
                    self.step_on();
                    None
                } else {
                    None
                }
            },
            Key::Left => {
                self.step_back();
                None
            },
            Key::Right => {
                self.step_on();
                None
            },
            Key::Other => None,
        }
    }

    fn step_back(&mut self)
        ensures
            final(self)@ == (if old(self)@.cards.len() > 0 && old(self).current_card > 0 {
                AppView { current_card: (old(self).current_card - 1) as usize, ..old(self)@ }
            } else {
                old(self)@
            }),
    {
        if self.cards.len() > 0 && self.current_card > 0 {
            self.current_card = self.current_card - 1;
        }
    }

    fn step_on(&mut self)
        ensures
            final(self)@ == (if old(self)@.cards.len() > 0 && old(self).current_card < old(
                self,
            )@.cards.len() - 1 {
                AppView { current_card: (old(self).current_card + 1) as usize, ..old(self)@ }
            } else {
                old(self)@
            }),
    {
        if self.cards.len() > 0 && self.current_card < self.cards.len() - 1 {
            self.current_card = self.current_card + 1;
        }
    }

    fn confirm(&mut self) -> (delete: Option<CardId>)
        requires
            old(self).pending is None,
        ensures
            final(self)@ == after_yes(old(self)@),
            match delete {
                Some(id) => final(self)@.pending is Some && id@
                    == final(self)@.pending.unwrap().card.id,
                None => final(self)@.pending is None,
            },
    {
        if !self.sure || self.current_card >= self.cards.len() {
            return None;
        }
        let ghost before = entry_views(self.cards@);
        let card = self.cards.remove(self.current_card);
        assert(entry_views(self.cards@) =~= before.remove(self.current_card as int));
        if card.leech {
            let ghost rest = entry_views(self.cards@);
            self.cards.push(card);
            assert(entry_views(self.cards@) =~= rest.push(card@));
            None
        } else {
            let id = card.card.id;
            self.pending = Some(card);
            Some(id)
        }
    }

    /// Takes the store's answer for the card that waits for it.
    pub fn finish_delete(&mut self, deleted: bool)
        ensures
            final(self)@ == after_delete(old(self)@, deleted),
    {
        if self.pending.is_none() {
            return ;
        }
        let mut taken: Option<CardEntry> = None;
        std::mem::swap(&mut self.pending, &mut taken);
        let card = taken.unwrap();
        if deleted {
            if self.current_card >= self.cards.len() && self.cards.len() > 0 {
                self.current_card = self.cards.len() - 1;
            }
        } else {
            let ghost before = entry_views(self.cards@);
            if self.current_card <= self.cards.len() {
                self.cards.insert(self.current_card, card);
                assert(entry_views(self.cards@) =~= before.insert(
                    self.current_card as int,
                    card@,
                ));
            } else {
                self.cards.push(card);
                assert(entry_views(self.cards@) =~= before.push(card@));
            }
        }
        self.sure = false;
    }
}

/// Whether the card that is shown exists, or there is no card at all.
pub open spec fn in_bounds(app: AppView) -> bool {
    app.cards.len() == 0 || app.current_card < app.cards.len()
}

/// No key moves the audit past the end of its cards, and neither does the
/// store's answer to a deletion: after both, a card that exists is shown,
/// or there is none, and no card waits for the store.
pub proof fn audit_stays_in_bounds(app: AppView, key: Key, deleted: bool)
    requires
        in_bounds(app),
        app.pending is None,
    ensures
        after_key(app, key).pending is None ==> in_bounds(after_key(app, key)),
        in_bounds(after_delete(after_key(app, key), deleted)),
        after_delete(after_key(app, key), deleted).pending is None,
{
    let next = after_key(app, key);
    if next.pending is Some {
        let rest = app.cards.remove(app.current_card as int);
        assert(next.cards == rest);
        assert(rest.len() == app.cards.len() - 1);
        if !deleted {
            assert(rest.insert(app.current_card as int, next.pending.unwrap()).len()
                == app.cards.len());
        }
    }
}

/// A leech is never handed to the store for deletion.
pub proof fn leeches_are_kept(app: AppView, key: Key)
    requires
        app.pending is None,
    ensures
        after_key(app, key).pending is Some ==> !after_key(app, key).pending.unwrap().leech,
        after_key(app, key).cards.len() + (if after_key(app, key).pending is Some {
            1nat
        } else {
            0nat
        }) == app.cards.len(),
{
}

/// Nothing is deleted without the question having been asked.
pub proof fn no_deletion_without_the_question(app: AppView, key: Key)
    requires
        app.pending is None,
        !app.sure,
    ensures
        after_key(app, key).pending is None,
        after_key(app, key).cards == app.cards,
{
}

} // verus!
