//! The card store and the global state: every card under its id with its
//! scheduling state and history, how a scan is taken into the store, and
//! what is remembered across sessions.

use vstd::prelude::*;
use crate::algorithm::{
    default_state, factors_of, CardState, CardStateView, MeanQuality, OptimalFactorMatrix,
};
use crate::card::{card_views, Card, CardId, CardView};
use crate::persist::Loaded;
use crate::time::{now, Timestamp, NANOS_PER_WEEK};
use std::collections::HashMap;

verus! {

/// A card with its scheduling state and review history.
#[derive(Debug, Clone, PartialEq, Eq)]
pub struct CardEntry {
    pub added: Timestamp,
    pub card: Card,
    pub last_revised: Option<Timestamp>,
    pub leech: bool,
    pub orphan: bool,
    pub revise_count: u64,
    pub state: CardState,
}

/// A store entry as a mathematical value.
pub struct CardEntryView {
    pub added: Timestamp,
    pub card: CardView,
    pub last_revised: Option<Timestamp>,
    pub leech: bool,
    pub orphan: bool,
    pub revise_count: u64,
    pub state: CardStateView,
}

impl View for CardEntry {
    type V = CardEntryView;

    open spec fn view(&self) -> CardEntryView {
        CardEntryView {
            added: self.added,
            card: self.card@,
            last_revised: self.last_revised,
            leech: self.leech,
            orphan: self.orphan,
            revise_count: self.revise_count,
            state: self.state@,
        }
    }
}

/// The entry made for a card on the day it is first seen.
pub open spec fn fresh_entry(card: CardView, added: Timestamp) -> CardEntryView {
    CardEntryView {
        added,
        card,
        last_revised: None,
        leech: false,
        orphan: false,
        revise_count: 0,
        state: default_state(),
    }
}

impl CardEntry {
    /// A fresh entry for `card`, first seen at `added`.
    pub fn new_at(card: Card, added: Timestamp) -> (e: CardEntry)
        ensures
            e@ == fresh_entry(card@, added),
    {
        CardEntry {
            added,
            card,
            last_revised: None,
            leech: false,
            orphan: false,
            revise_count: 0,
            state: CardState::default(),
        }
    }

    /// A fresh entry for `card`, first seen now.
    pub fn new(card: Card) -> (e: CardEntry)
        ensures
            e@ == fresh_entry(card@, e.added),
    {
        CardEntry::new_at(card, now())
    }
}

/// The mathematical value of each entry of a list, in order.
pub open spec fn entry_views(v: Seq<CardEntry>) -> Seq<CardEntryView> {
    v.map_values(|e: CardEntry| e@)
}

/// The id of the entry at position `i`.
pub open spec fn id_at(s: Seq<CardEntryView>, i: int) -> Seq<u8> {
    s[i].card.id
}

/// Whether some entry of `s` has the id `id`.
pub open spec fn has_id(s: Seq<CardEntryView>, id: Seq<u8>) -> bool {
    exists|i: int| 0 <= i < s.len() && #[trigger] id_at(s, i) == id
}

/// No two entries of `s` share an id.
pub open spec fn distinct_ids(s: Seq<CardEntryView>) -> bool {
    forall|i: int, j: int| 0 <= i < j < s.len() ==> #[trigger] id_at(s, i) != #[trigger] id_at(s, j)
}

/// A position at which `s` holds an entry with the id `id`.
pub open spec fn position_of(s: Seq<CardEntryView>, id: Seq<u8>) -> int {
    choose|i: int| 0 <= i < s.len() && #[trigger] id_at(s, i) == id
}

/// The entries of `s`, each under its card's id.
pub open spec fn as_map(s: Seq<CardEntryView>) -> Map<Seq<u8>, CardEntryView> {
    Map::new(|id: Seq<u8>| has_id(s, id), |id: Seq<u8>| s[position_of(s, id)])
}

/// Every entry of `m` stands under its own card's id.
pub open spec fn keyed_by_id(m: Map<Seq<u8>, CardEntryView>) -> bool {
    forall|id: Seq<u8>| #[trigger] m.contains_key(id) ==> m[id].card.id == id
}

/// In a list of entries read as a map, every entry stands under the id of
/// its own card.
pub proof fn store_keys_are_card_ids(s: Seq<CardEntryView>)
    ensures
        keyed_by_id(as_map(s)),
{
    assert forall|id: Seq<u8>| #[trigger] as_map(s).contains_key(id) implies as_map(s)[id].card.id
        == id by {
        let i = position_of(s, id);
        assert(id_at(s, i) == id);
    }
}

/// The entries of a list without repeated ids are the values of the list
/// read as a map.
pub proof fn entries_are_the_values(s: Seq<CardEntryView>, e: CardEntryView)
    requires
        distinct_ids(s),
    ensures
        s.contains(e) <==> (as_map(s).contains_key(e.card.id) && as_map(s)[e.card.id] == e),
{
    if s.contains(e) {
        let i = choose|i: int| 0 <= i < s.len() && s[i] == e;
        assert(id_at(s, i) == e.card.id);
        lemma_as_map_at(s, i);
    }
    if as_map(s).contains_key(e.card.id) && as_map(s)[e.card.id] == e {
        let p = position_of(s, e.card.id);
        assert(id_at(s, p) == e.card.id);
        assert(s[p] == e);
    }
}

/// A choice among the entries of a list holds the entries that meet the
/// condition and no others, and repeats no id where the list repeats none.
pub proof fn choice_keeps_entries(s: Seq<CardEntryView>, wanted: spec_fn(CardEntryView) -> bool)
    ensures
        forall|e: CardEntryView| #[trigger] s.filter(wanted).contains(e) <==> s.contains(e) && wanted(e),
        distinct_ids(s) ==> distinct_ids(s.filter(wanted)),
    decreases s.len(),
{
    reveal(Seq::filter);
    if s.len() > 0 {
        let rest = s.drop_last();
        let last = s.last();
        choice_keeps_entries(rest, wanted);
        let kept = rest.filter(wanted);
        let all = s.filter(wanted);
        assert(all == if wanted(last) {
            kept.push(last)
        } else {
            kept
        });
        assert forall|e: CardEntryView| #[trigger] all.contains(e) <==> s.contains(e) && wanted(
            e,
        ) by {
            if all.contains(e) {
                let i = choose|i: int| 0 <= i < all.len() && all[i] == e;
                if i < kept.len() {
                    assert(kept[i] == e);
                    assert(kept.contains(e));
                    let k = choose|k: int| 0 <= k < rest.len() && rest[k] == e;
                    assert(s[k] == e);
                } else {
                    assert(e == last);
                    assert(s[s.len() - 1] == e);
                }
            }
            if s.contains(e) && wanted(e) {
                let i = choose|i: int| 0 <= i < s.len() && s[i] == e;
                if i < rest.len() {
                    assert(rest[i] == e);
                    assert(rest.contains(e));
                    assert(kept.contains(e));
                    let k = choose|k: int| 0 <= k < kept.len() && kept[k] == e;
                    assert(all[k] == e);
                } else {
                    assert(e == last);
                    assert(all[kept.len() as int] == e);
                }
            }
        }
        if distinct_ids(s) {
            assert forall|i: int, j: int| 0 <= i < j < rest.len() implies #[trigger] id_at(rest, i)
                != #[trigger] id_at(rest, j) by {
                assert(id_at(s, i) != id_at(s, j));
            }
            if wanted(last) {
                let kept = rest.filter(wanted);
                let all = kept.push(last);
                assert forall|i: int, j: int| 0 <= i < j < all.len() implies #[trigger] id_at(all, i)
                    != #[trigger] id_at(all, j) by {
                    if j < kept.len() {
                        assert(id_at(kept, i) != id_at(kept, j));
                    } else {
                        assert(kept.contains(kept[i]));
                        assert(rest.contains(kept[i]));
                        let k = choose|k: int| 0 <= k < rest.len() && rest[k] == kept[i];
                        assert(id_at(s, k) != id_at(s, s.len() - 1));
                    }
                }
            }
        }
    }
}

proof fn lemma_as_map_at(s: Seq<CardEntryView>, i: int)
    requires
        distinct_ids(s),
        0 <= i < s.len(),
    ensures
        as_map(s).contains_key(id_at(s, i)),
        as_map(s)[id_at(s, i)] == s[i],
{
    let id = id_at(s, i);
    assert(has_id(s, id));
    let p = position_of(s, id);
    assert(id_at(s, p) == id);
    if p < i {
        assert(id_at(s, p) != id_at(s, i));
    } else if i < p {
        assert(id_at(s, i) != id_at(s, p));
    }
}

proof fn lemma_as_map_push(s: Seq<CardEntryView>, e: CardEntryView)
    requires
        distinct_ids(s),
        !has_id(s, e.card.id),
    ensures
        distinct_ids(s.push(e)),
        as_map(s.push(e)) == as_map(s).insert(e.card.id, e),
{
    let t = s.push(e);
    assert forall|i: int, j: int| 0 <= i < j < t.len() implies #[trigger] id_at(t, i)
        != #[trigger] id_at(t, j) by {
        if j < s.len() {
            assert(id_at(s, i) != id_at(s, j));
        } else {
            assert(id_at(s, i) == id_at(t, i));
        }
    }
    assert forall|id: Seq<u8>| as_map(t).contains_key(id) <==> as_map(s).insert(
        e.card.id,
        e,
    ).contains_key(id) by {
        if has_id(s, id) {
            let p = position_of(s, id);
            assert(id_at(t, p) == id);
        }
        if id == e.card.id {
            assert(id_at(t, s.len() as int) == id);
        }
        if has_id(t, id) {
            let p = position_of(t, id);
            if p < s.len() {
                assert(id_at(s, p) == id);
            }
        }
    }
    assert forall|id: Seq<u8>| #[trigger] as_map(t).contains_key(id) implies as_map(t)[id]
        == as_map(s).insert(e.card.id, e)[id] by {
        let p = position_of(t, id);
        assert(id_at(t, p) == id);
        lemma_as_map_at(t, p);
        if p < s.len() {
            assert(id_at(s, p) == id);
            lemma_as_map_at(s, p);
        }
    }
    assert(as_map(t) =~= as_map(s).insert(e.card.id, e));
}

proof fn lemma_as_map_update(s: Seq<CardEntryView>, i: int, e: CardEntryView)
    requires
        distinct_ids(s),
        0 <= i < s.len(),
        e.card.id == id_at(s, i),
    ensures
        distinct_ids(s.update(i, e)),
        as_map(s.update(i, e)) == as_map(s).insert(e.card.id, e),
{
    let t = s.update(i, e);
    assert forall|k: int| 0 <= k < s.len() implies #[trigger] id_at(t, k) == id_at(s, k) by {}
    assert forall|a: int, b: int| 0 <= a < b < t.len() implies #[trigger] id_at(t, a)
        != #[trigger] id_at(t, b) by {
        assert(id_at(s, a) != id_at(s, b));
    }
    assert forall|id: Seq<u8>| as_map(t).contains_key(id) <==> as_map(s).insert(
        e.card.id,
        e,
    ).contains_key(id) by {
        if has_id(s, id) {
            let p = position_of(s, id);
            assert(id_at(t, p) == id);
        }
        if has_id(t, id) {
            let p = position_of(t, id);
            assert(id_at(s, p) == id);
        }
        if id == e.card.id {
            assert(id_at(s, i) == id);
        }
    }
    assert forall|id: Seq<u8>| #[trigger] as_map(t).contains_key(id) implies as_map(t)[id]
        == as_map(s).insert(e.card.id, e)[id] by {
        let p = position_of(t, id);
        assert(id_at(t, p) == id);
        lemma_as_map_at(t, p);
        lemma_as_map_at(s, p);
    }
    assert(as_map(t) =~= as_map(s).insert(e.card.id, e));
}

proof fn lemma_as_map_remove(s: Seq<CardEntryView>, i: int)
    requires
        distinct_ids(s),
        0 <= i < s.len(),
    ensures
        distinct_ids(s.remove(i)),
        as_map(s.remove(i)) == as_map(s).remove(id_at(s, i)),
{
    let t = s.remove(i);
    assert forall|k: int| 0 <= k < t.len() implies #[trigger] id_at(t, k) == id_at(
        s,
        if k < i {
            k
        } else {
            k + 1
        },
    ) by {}
    assert forall|a: int, b: int| 0 <= a < b < t.len() implies #[trigger] id_at(t, a)
        != #[trigger] id_at(t, b) by {
        let a2 = if a < i { a } else { a + 1 };
        let b2 = if b < i { b } else { b + 1 };
        assert(id_at(s, a2) != id_at(s, b2));
    }
    assert forall|id: Seq<u8>| as_map(t).contains_key(id) <==> as_map(s).remove(
        id_at(s, i),
    ).contains_key(id) by {
        if has_id(t, id) {
            let p = position_of(t, id);
            let p2 = if p < i { p } else { p + 1 };
            assert(id_at(s, p2) == id);
            if p2 < i {
                assert(id_at(s, p2) != id_at(s, i));
            } else {
                assert(id_at(s, i) != id_at(s, p2));
            }
        }
        if has_id(s, id) && id != id_at(s, i) {
            let p = position_of(s, id);
            let p2 = if p < i { p } else { p - 1 };
            assert(id_at(t, p2) == id);
        }
    }
    assert forall|id: Seq<u8>| #[trigger] as_map(t).contains_key(id) implies as_map(t)[id]
        == as_map(s).remove(id_at(s, i))[id] by {
        let p = position_of(t, id);
        assert(id_at(t, p) == id);
        lemma_as_map_at(t, p);
        let p2 = if p < i { p } else { p + 1 };
        lemma_as_map_at(s, p2);
    }
    assert(as_map(t) =~= as_map(s).remove(id_at(s, i)));
}

/// A store after `s` was written to it entry by entry: a later entry
/// replaces an earlier one of the same id.
pub open spec fn upserted(m: Map<Seq<u8>, CardEntryView>, s: Seq<CardEntryView>) -> Map<
    Seq<u8>,
    CardEntryView,
>
    decreases s.len(),
{
    if s.len() == 0 {
        m
    } else {
        upserted(m, s.drop_last()).insert(s.last().card.id, s.last())
    }
}

/// Why the store refused an operation.
#[derive(Debug, Clone, Copy, PartialEq, Eq, Structural)]
pub enum StoreError {
    /// No entry has the id that was asked for.
    NotFound,
}

impl StoreError {
    /// The error in words.
    pub fn message(&self) -> (m: String)
        ensures
            m@ == "card not found"@,
    {
        String::from_str("card not found")
    }
}

/// The card store: every known card under its id.
#[derive(Debug)]
pub struct CardDb {
    entries: Vec<CardEntry>,
}

impl View for CardDb {
    type V = Map<Seq<u8>, CardEntryView>;

    open spec fn view(&self) -> Map<Seq<u8>, CardEntryView> {
        as_map(self.seq())
    }
}

fn position_in(entries: &Vec<CardEntry>, id: &CardId) -> (r: Option<usize>)
    ensures
        match r {
            Some(i) => i < entries.len() && id_at(entry_views(entries@), i as int) == id@,
            None => !has_id(entry_views(entries@), id@),
        },
{
    let mut i: usize = 0;
    while i < entries.len()
        invariant
            i <= entries.len(),
            forall|j: int| 0 <= j < i ==> #[trigger] id_at(entry_views(entries@), j) != id@,
        decreases entries.len() - i,
    {
        if entries[i].card.id.same(id) {
            return Some(i);
        }
        i = i + 1;
    }
    None
}

/// Writes `entry` under its card's id, in place of any entry there.
fn put(entries: &mut Vec<CardEntry>, entry: CardEntry)
    requires
        distinct_ids(entry_views(old(entries)@)),
    ensures
        distinct_ids(entry_views(final(entries)@)),
        as_map(entry_views(final(entries)@)) == as_map(entry_views(old(entries)@)).insert(
            entry@.card.id,
            entry@,
        ),
{
    let ghost before = entry_views(entries@);
    match position_in(entries, &entry.card.id) {
        Some(i) => {
            proof {
                lemma_as_map_update(before, i as int, entry@);
            }
            entries[i] = entry;
            assert(entry_views(entries@) =~= before.update(i as int, entry@));
        },
        None => {
            proof {
                lemma_as_map_push(before, entry@);
            }
            entries.push(entry);
            assert(entry_views(entries@) =~= before.push(entry@));
        },
    }
}

impl CardDb {
    #[verifier::type_invariant]
    spec fn ids_are_distinct(self) -> bool {
        distinct_ids(entry_views(self.entries@))
    }

    /// The entries in the order the store keeps them.
    pub closed spec fn seq(&self) -> Seq<CardEntryView> {
        entry_views(self.entries@)
    }

    /// The empty store.
    pub fn new() -> (db: CardDb)
        ensures
            db@ == Map::<Seq<u8>, CardEntryView>::empty(),
            db.seq().len() == 0,
    {
        let db = CardDb { entries: Vec::new() };
        assert(db@ =~= Map::<Seq<u8>, CardEntryView>::empty()) by {
            assert forall|id: Seq<u8>| !has_id(db.seq(), id) by {}
        }
        db
    }

    /// The store that holds `entries`; of two entries with one id the
    /// later stays.
    pub fn from_entries(entries: Vec<CardEntry>) -> (db: CardDb)
        ensures
            db@ == upserted(Map::empty(), entry_views(entries@)),
    {
        let mut db = CardDb::new();
        update_cards(&mut db, entries);
        db
    }

    /// The number of entries.
    pub fn len(&self) -> (n: usize)
        ensures
            n == self.seq().len(),
            n == self@.dom().len(),
            self@.dom().finite(),
    {
        proof {
            use_type_invariant(self);
            lemma_domain_size(self.seq());
        }
        self.entries.len()
    }

    /// Whether the store holds no entry.
    pub fn is_empty(&self) -> (b: bool)
        ensures
            b == (self.seq().len() == 0),
            b == (self@ == Map::<Seq<u8>, CardEntryView>::empty()),
    {
        proof {
            if self.seq().len() == 0 {
                assert forall|id: Seq<u8>| !has_id(self.seq(), id) by {}
                assert(self@ =~= Map::<Seq<u8>, CardEntryView>::empty());
            } else {
                assert(id_at(self.seq(), 0) == self.seq()[0].card.id);
                assert(has_id(self.seq(), self.seq()[0].card.id));
                assert(self@.contains_key(self.seq()[0].card.id));
            }
        }
        self.entries.len() == 0
    }

    /// Whether the store holds an entry under `id`.
    pub fn contains(&self, id: &CardId) -> (b: bool)
        ensures
            b == self@.contains_key(id@),
    {
        position_in(&self.entries, id).is_some()
    }

    /// The entry under `id`, if there is one.
    pub fn get(&self, id: &CardId) -> (r: Option<&CardEntry>)
        ensures
            r is Some <==> self@.contains_key(id@),
            r is Some ==> r.unwrap()@ == self@[id@] && r.unwrap()@.card.id == id@,
    {
        match position_in(&self.entries, id) {
            Some(i) => {
                proof {
                    use_type_invariant(self);
                    lemma_as_map_at(self.seq(), i as int);
                }
                Some(&self.entries[i])
            },
            None => None,
        }
    }

    /// Writes `entry` under its card's id, in place of any entry there.
    pub fn insert(&mut self, entry: CardEntry)
        ensures
            final(self)@ == old(self)@.insert(entry@.card.id, entry@),
    {
        proof {
            use_type_invariant(&*self);
        }
        let mut entries: Vec<CardEntry> = Vec::new();
        std::mem::swap(&mut self.entries, &mut entries);
        put(&mut entries, entry);
        self.entries = entries;
    }

    /// Takes the entry under `id` out of the store, if there is one.
    pub fn remove(&mut self, id: &CardId) -> (r: Option<CardEntry>)
        ensures
            r is Some <==> old(self)@.contains_key(id@),
            r is Some ==> r.unwrap()@ == old(self)@[id@],
            final(self)@ == old(self)@.remove(id@),
            r is None ==> final(self).seq() == old(self).seq(),
    {
        proof {
            use_type_invariant(&*self);
        }
        let ghost before = self.seq();
        match position_in(&self.entries, id) {
            Some(i) => {
                proof {
                    lemma_as_map_at(before, i as int);
                    lemma_as_map_remove(before, i as int);
                }
                let mut entries: Vec<CardEntry> = Vec::new();
                std::mem::swap(&mut self.entries, &mut entries);
                let entry = entries.remove(i);
                assert(entry_views(entries@) =~= before.remove(i as int));
                self.entries = entries;
                Some(entry)
            },
            None => {
                assert(self@.remove(id@) =~= self@);
                None
            },
        }
    }

    /// The entries in the order the store keeps them.
    pub fn values(&self) -> (v: &Vec<CardEntry>)
        ensures
            entry_views(v@) == self.seq(),
            distinct_ids(self.seq()),
    {
        proof {
            use_type_invariant(self);
        }
        &self.entries
    }

    /// The entries in the order the store kept them.
    pub fn into_values(self) -> (v: Vec<CardEntry>)
        ensures
            entry_views(v@) == self.seq(),
            distinct_ids(self.seq()),
    {
        proof {
            use_type_invariant(&self);
        }
        self.entries
    }
}

proof fn lemma_domain_size(s: Seq<CardEntryView>)
    requires
        distinct_ids(s),
    ensures
        as_map(s).dom().finite(),
        as_map(s).dom().len() == s.len(),
    decreases s.len(),
{
    if s.len() == 0 {
        assert forall|id: Seq<u8>| !has_id(s, id) by {}
        assert(as_map(s).dom() =~= Set::<Seq<u8>>::empty());
    } else {
        let t = s.drop_last();
        let e = s.last();
        assert forall|i: int, j: int| 0 <= i < j < t.len() implies #[trigger] id_at(t, i)
            != #[trigger] id_at(t, j) by {
            assert(id_at(s, i) != id_at(s, j));
        }
        if has_id(t, e.card.id) {
            let p = position_of(t, e.card.id);
            assert(id_at(s, p) == id_at(t, p));
            assert(id_at(s, p) != id_at(s, s.len() - 1));
        }
        lemma_domain_size(t);
        lemma_as_map_push(t, e);
        assert(t.push(e) =~= s);
        assert(as_map(s).dom() =~= as_map(t).dom().insert(e.card.id));
    }
}

/// Removes the entry under `id`. Fails, and leaves the store as it was,
/// where there is none.
pub fn delete_card(db: &mut CardDb, id: CardId) -> (r: Result<(), StoreError>)
    ensures
        r is Ok <==> old(db)@.contains_key(id@),
        r is Ok ==> final(db)@ == old(db)@.remove(id@),
        r is Err ==> r == Err::<(), StoreError>(StoreError::NotFound) && final(db)@ == old(db)@
            && final(db).seq() == old(db).seq(),
{
    match db.remove(&id) {
        Some(_) => Ok(()),
        None => {
            assert(db@ =~= old(db)@);
            Err(StoreError::NotFound)
        },
    }
}

/// Writes `cards` to the store one after another: a later entry replaces an
/// earlier one of the same id.
pub fn update_cards(db: &mut CardDb, cards: Vec<CardEntry>)
    ensures
        final(db)@ == upserted(old(db)@, entry_views(cards@)),
{
    proof {
        use_type_invariant(&*db);
    }
    let ghost all = entry_views(cards@);
    let mut entries: Vec<CardEntry> = Vec::new();
    std::mem::swap(&mut db.entries, &mut entries);
    for entry in it: cards.into_iter()
        invariant
            it.seq() == cards@,
            all == entry_views(cards@),
            distinct_ids(entry_views(entries@)),
            as_map(entry_views(entries@)) == upserted(old(db)@, all.take(it.index() as int)),
    {
        proof {
            let k = it.index() as int;
            assert(all.take(k + 1).drop_last() =~= all.take(k));
            assert(all.take(k + 1).last() == entry@);
        }
        put(&mut entries, entry);
    }
    assert(all.take(all.len() as int) =~= all);
    db.entries = entries;
}

/// The id of the card at position `i`.
pub open spec fn card_id_at(found: Seq<CardView>, i: int) -> Seq<u8> {
    found[i].id
}

/// Whether some card of `found` has the id `id`.
pub open spec fn found_has(found: Seq<CardView>, id: Seq<u8>) -> bool {
    exists|i: int| 0 <= i < found.len() && #[trigger] card_id_at(found, i) == id
}

/// The last card of `found` with the id `id`.
pub open spec fn last_found(found: Seq<CardView>, id: Seq<u8>) -> CardView
    decreases found.len(),
{
    if found.len() == 0 {
        arbitrary()
    } else if found.last().id == id {
        found.last()
    } else {
        last_found(found.drop_last(), id)
    }
}

/// The store `store` after a scan that found `found`.
///
/// A card that was found keeps its state and history, takes the content
/// that was found last, and is no orphan; one that is new gets a fresh entry
/// added at `now`. A card that was not found stays as it is, except that a
/// full scan marks it an orphan. Nothing is ever removed.
pub open spec fn reconciled(
    store: Map<Seq<u8>, CardEntryView>,
    found: Seq<CardView>,
    full: bool,
    now: Timestamp,
) -> Map<Seq<u8>, CardEntryView> {
    Map::new(
        |id: Seq<u8>| store.contains_key(id) || found_has(found, id),
        |id: Seq<u8>|
            if found_has(found, id) {
                if store.contains_key(id) {
                    CardEntryView { card: last_found(found, id), orphan: false, ..store[id] }
                } else {
                    fresh_entry(last_found(found, id), now)
                }
            } else if full {
                CardEntryView { orphan: true, ..store[id] }
            } else {
                store[id]
            },
    )
}

/// The store `m` after one card was found.
pub open spec fn absorbed(m: Map<Seq<u8>, CardEntryView>, card: CardView, now: Timestamp) -> Map<
    Seq<u8>,
    CardEntryView,
> {
    if m.contains_key(card.id) {
        m.insert(card.id, CardEntryView { card, orphan: false, ..m[card.id] })
    } else {
        m.insert(card.id, fresh_entry(card, now))
    }
}

proof fn lemma_found_push(found: Seq<CardView>, card: CardView)
    ensures
        forall|id: Seq<u8>|
            found_has(found.push(card), id) <==> (found_has(found, id) || id == card.id),
        forall|id: Seq<u8>|
            #![trigger last_found(found.push(card), id)]
            last_found(found.push(card), id) == if id == card.id {
                card
            } else {
                last_found(found, id)
            },
{
    let t = found.push(card);
    assert(t.drop_last() =~= found);
    assert(t.last() == card);
    assert forall|id: Seq<u8>| found_has(t, id) <==> (found_has(found, id) || id
        == card.id) by {
        if found_has(found, id) {
            let i = choose|i: int| 0 <= i < found.len() && #[trigger] card_id_at(found, i) == id;
            assert(card_id_at(t, i) == id);
        }
        if id == card.id {
            assert(card_id_at(t, found.len() as int) == id);
        }
        if found_has(t, id) {
            let i = choose|i: int| 0 <= i < t.len() && #[trigger] card_id_at(t, i) == id;
            if i < found.len() {
                assert(card_id_at(found, i) == id);
            }
        }
    }
}

proof fn lemma_last_found_has_id(found: Seq<CardView>, id: Seq<u8>)
    requires
        found_has(found, id),
    ensures
        last_found(found, id).id == id,
    decreases found.len(),
{
    if found.len() > 0 && found.last().id != id {
        let i = choose|i: int| 0 <= i < found.len() && #[trigger] card_id_at(found, i) == id;
        assert(card_id_at(found.drop_last(), i) == id);
        lemma_last_found_has_id(found.drop_last(), id);
    }
}

/// Every entry stands under the id of its own card, and a scan keeps it
/// so.
pub proof fn reconcile_keeps_the_keys(
    store: Map<Seq<u8>, CardEntryView>,
    found: Seq<CardView>,
    full: bool,
    now: Timestamp,
)
    requires
        keyed_by_id(store),
    ensures
        keyed_by_id(reconciled(store, found, full, now)),
{
    let after = reconciled(store, found, full, now);
    assert forall|id: Seq<u8>| #[trigger] after.contains_key(id) implies after[id].card.id
        == id by {
        if found_has(found, id) {
            lemma_last_found_has_id(found, id);
        } else {
            assert(store.contains_key(id));
        }
    }
}

proof fn lemma_reconciled_none(store: Map<Seq<u8>, CardEntryView>, now: Timestamp)
    ensures
        reconciled(store, Seq::empty(), false, now) == store,
{
    assert(reconciled(store, Seq::empty(), false, now) =~= store);
}

proof fn lemma_reconciled_push(
    store: Map<Seq<u8>, CardEntryView>,
    found: Seq<CardView>,
    card: CardView,
    now: Timestamp,
)
    ensures
        reconciled(store, found.push(card), false, now) == absorbed(
            reconciled(store, found, false, now),
            card,
            now,
        ),
{
    lemma_found_push(found, card);
    let t = found.push(card);
    let l = reconciled(store, t, false, now);
    let r = absorbed(reconciled(store, found, false, now), card, now);
    assert forall|id: Seq<u8>| l.contains_key(id) <==> r.contains_key(id) by {}
    assert forall|id: Seq<u8>| #[trigger] l.contains_key(id) implies l[id] == r[id] by {
        assert(last_found(t, id) == if id == card.id {
            card
        } else {
            last_found(found, id)
        });
    }
    assert(l =~= r);
}

/// Scanning twice and finding the same cards changes nothing the second
/// time, whenever the second scan takes place.
pub proof fn reconcile_is_idempotent(
    store: Map<Seq<u8>, CardEntryView>,
    found: Seq<CardView>,
    full: bool,
    first: Timestamp,
    second: Timestamp,
)
    ensures
        reconciled(reconciled(store, found, full, first), found, full, second) == reconciled(
            store,
            found,
            full,
            first,
        ),
{
    let once = reconciled(store, found, full, first);
    let twice = reconciled(once, found, full, second);
    assert forall|id: Seq<u8>| #[trigger] twice.contains_key(id) implies twice[id]
        == once[id] by {}
    assert(twice =~= once);
}

/// After a full scan the orphans are exactly the cards that the scan did
/// not find: each of those is marked, and every card that was found, also
/// one that was an orphan before, is not.
pub proof fn full_scan_marks_the_missing(
    store: Map<Seq<u8>, CardEntryView>,
    found: Seq<CardView>,
    now: Timestamp,
)
    ensures
        forall|id: Seq<u8>| #[trigger]
            reconciled(store, found, true, now).contains_key(id) ==> (reconciled(
                store,
                found,
                true,
                now,
            )[id].orphan <==> !found_has(found, id)),
        forall|id: Seq<u8>| #[trigger]
            store.contains_key(id) ==> reconciled(store, found, true, now).contains_key(id),
{
}

/// Whatever the scan, a card that it found is no orphan afterwards, and no
/// card leaves the store.
pub proof fn found_cards_are_no_orphans(
    store: Map<Seq<u8>, CardEntryView>,
    found: Seq<CardView>,
    full: bool,
    now: Timestamp,
)
    ensures
        forall|id: Seq<u8>|
            found_has(found, id) ==> #[trigger] reconciled(store, found, full, now).contains_key(
                id,
            ) && !reconciled(store, found, full, now)[id].orphan,
        forall|id: Seq<u8>| #[trigger]
            store.contains_key(id) ==> reconciled(store, found, full, now).contains_key(id),
{
}

/// A scan that is not full leaves alone every card that it did not find.
pub proof fn partial_scan_keeps_the_missing(
    store: Map<Seq<u8>, CardEntryView>,
    found: Seq<CardView>,
    now: Timestamp,
)
    ensures
        forall|id: Seq<u8>|
            #![trigger reconciled(store, found, false, now)[id]]
            store.contains_key(id) && !found_has(found, id) ==> reconciled(
                store,
                found,
                false,
                now,
            )[id] == store[id],
{
}

/// A scan keeps the state and the history of every card that the store
/// held, and gives it the content that was found.
pub proof fn reconcile_keeps_state(
    store: Map<Seq<u8>, CardEntryView>,
    found: Seq<CardView>,
    full: bool,
    now: Timestamp,
    id: Seq<u8>,
)
    requires
        store.contains_key(id),
    ensures
        reconciled(store, found, full, now).contains_key(id),
        reconciled(store, found, full, now)[id].state == store[id].state,
        reconciled(store, found, full, now)[id].added == store[id].added,
        reconciled(store, found, full, now)[id].last_revised == store[id].last_revised,
        reconciled(store, found, full, now)[id].revise_count == store[id].revise_count,
        reconciled(store, found, full, now)[id].leech == store[id].leech,
        found_has(found, id) ==> reconciled(store, found, full, now)[id].card == last_found(
            found,
            id,
        ),
        !found_has(found, id) ==> reconciled(store, found, full, now)[id].card == store[id].card,
{
}

/// Takes one found card into the entries: an entry with its id gets the
/// card and is no orphan any more, else a fresh entry is added.
fn absorb(entries: &mut Vec<CardEntry>, card: Card, now: Timestamp)
    requires
        distinct_ids(entry_views(old(entries)@)),
    ensures
        distinct_ids(entry_views(final(entries)@)),
        as_map(entry_views(final(entries)@)) == absorbed(
            as_map(entry_views(old(entries)@)),
            card@,
            now,
        ),
{
    let ghost before = entry_views(entries@);
    match position_in(entries, &card.id) {
        Some(i) => {
            let ghost after = CardEntryView { card: card@, orphan: false, ..before[i as int] };
            proof {
                lemma_as_map_at(before, i as int);
                lemma_as_map_update(before, i as int, after);
            }
            entries[i].card = card;
            entries[i].orphan = false;
            assert(entry_views(entries@) =~= before.update(i as int, after));
        },
        None => {
            let entry = CardEntry::new_at(card, now);
            proof {
                lemma_as_map_push(before, entry@);
            }
            entries.push(entry);
            assert(entry_views(entries@) =~= before.push(entry@));
        },
    }
}

fn id_is_among(ids: &Vec<CardId>, id: &CardId) -> (r: bool)
    ensures
        r == exists|i: int| 0 <= i < ids.len() && #[trigger] ids[i]@ == id@,
{
    let mut i: usize = 0;
    while i < ids.len()
        invariant
            i <= ids.len(),
            forall|j: int| 0 <= j < i ==> #[trigger] ids[j]@ != id@,
        decreases ids.len() - i,
    {
        if ids[i].same(id) {
            return true;
        }
        i = i + 1;
    }
    false
}

/// Marks as orphan every entry whose id is not among `ids`.
fn mark_missing(entries: &mut Vec<CardEntry>, ids: &Vec<CardId>)
    ensures
        final(entries).len() == old(entries).len(),
        forall|k: int|
            0 <= k < old(entries).len() ==> #[trigger] final(entries)[k]@ == (if exists|i: int|
                0 <= i < ids.len() && #[trigger] ids[i]@ == old(entries)[k].card.id@ {
                old(entries)[k]@
            } else {
                CardEntryView { orphan: true, ..old(entries)[k]@ }
            }),
{
    let mut k: usize = 0;
    while k < entries.len()
        invariant
            k <= entries.len(),
            entries.len() == old(entries).len(),
            forall|j: int| k <= j < entries.len() ==> entries[j] == old(entries)[j],
            forall|j: int|
                0 <= j < k ==> #[trigger] entries[j]@ == (if exists|i: int|
                    0 <= i < ids.len() && #[trigger] ids[i]@ == old(entries)[j].card.id@ {
                    old(entries)[j]@
                } else {
                    CardEntryView { orphan: true, ..old(entries)[j]@ }
                }),
        decreases entries.len() - k,
    {
        if !id_is_among(ids, &entries[k].card.id) {
            entries[k].orphan = true;
        }
        k = k + 1;
    }
}

/// Brings the store up to date with a scan that found `found` at `now`.
pub fn reconcile(db: &mut CardDb, found: Vec<Card>, full: bool, now: Timestamp)
    ensures
        final(db)@ == reconciled(old(db)@, card_views(found@), full, now),
{
    proof {
        use_type_invariant(&*db);
    }
    let ghost cards = card_views(found@);
    let ghost start = db@;
    let mut entries: Vec<CardEntry> = Vec::new();
    std::mem::swap(&mut db.entries, &mut entries);
    let mut ids: Vec<CardId> = Vec::new();
    proof {
        lemma_reconciled_none(start, now);
        assert(cards.take(0) =~= Seq::<CardView>::empty());
    }
    for card in it: found.into_iter()
        invariant
            it.seq() == found@,
            cards == card_views(found@),
            distinct_ids(entry_views(entries@)),
            as_map(entry_views(entries@)) == reconciled(
                start,
                cards.take(it.index() as int),
                false,
                now,
            ),
            ids.len() == it.index(),
            forall|i: int| 0 <= i < ids.len() ==> #[trigger] ids[i]@ == card_id_at(cards, i),
    {
        proof {
            let k = it.index() as int;
            assert(cards.take(k + 1) =~= cards.take(k).push(card@));
            lemma_reconciled_push(start, cards.take(k), card@, now);
        }
        ids.push(card.id);
        absorb(&mut entries, card, now);
    }
    assert(cards.take(cards.len() as int) =~= cards);
    if full {
        let ghost partial = entry_views(entries@);
        mark_missing(&mut entries, &ids);
        proof {
            let marked = entry_views(entries@);
            assert forall|k: int| 0 <= k < partial.len() implies #[trigger] id_at(marked, k)
                == id_at(partial, k) by {}
            assert forall|a: int, b: int| 0 <= a < b < marked.len() implies #[trigger] id_at(
                marked,
                a,
            ) != #[trigger] id_at(marked, b) by {
                assert(id_at(partial, a) != id_at(partial, b));
            }
            let goal = reconciled(start, cards, true, now);
            assert forall|id: Seq<u8>| as_map(marked).contains_key(id) <==> goal.contains_key(
                id,
            ) by {
                if has_id(marked, id) {
                    let p = position_of(marked, id);
                    assert(id_at(partial, p) == id);
                }
                if has_id(partial, id) {
                    let p = position_of(partial, id);
                    assert(id_at(marked, p) == id);
                }
            }
            assert forall|id: Seq<u8>| #[trigger] as_map(marked).contains_key(id) implies as_map(
                marked,
            )[id] == goal[id] by {
                let p = position_of(marked, id);
                assert(id_at(marked, p) == id);
                lemma_as_map_at(marked, p);
                lemma_as_map_at(partial, p);
                if found_has(cards, id) {
                    let i = choose|i: int| 0 <= i < cards.len() && #[trigger] card_id_at(cards, i)
                        == id;
                    assert(ids[i]@ == card_id_at(cards, i));
                } else {
                    if exists|i: int| 0 <= i < ids.len() && #[trigger] ids[i]@ == id {
                        let i = choose|i: int| 0 <= i < ids.len() && #[trigger] ids[i]@ == id;
                        assert(card_id_at(cards, i) == id);
                    }
                }
            }
            assert(as_map(marked) =~= goal);
        }
    }
    db.entries = entries;
}

/// Brings the store up to date with a scan that found `found_cards` just
/// now.
pub fn update_db(db: &mut CardDb, found_cards: Vec<Card>, full: bool)
    ensures
        exists|now: Timestamp|
            final(db)@ == #[trigger] reconciled(old(db)@, card_views(found_cards@), full, now),
{
    let t = now();
    reconcile(db, found_cards, full, t);
}

/// What is remembered across cards and sessions.
#[derive(Debug, Clone, PartialEq, Eq)]
pub struct GlobalState {
    /// The learned factors, by repetitions and then by ease in hundredths,
    /// each in millionths.
    pub optimal_factor_matrix: OptimalFactorMatrix,
    pub last_revise_session: Option<Timestamp>,
    pub mean_q: Option<MeanQuality>,
    pub total_cards_revised: u64,
}

/// The global state as a mathematical value.
pub struct GlobalStateView {
    /// The learned factor, in millionths, of each pair of repetitions and
    /// ease in hundredths that has one.
    pub factors: Map<(u64, u64), u64>,
    pub last_revise_session: Option<Timestamp>,
    /// The mean quality in millionths.
    pub mean_q: Option<u64>,
    pub total_cards_revised: u64,
}

impl View for GlobalState {
    type V = GlobalStateView;

    open spec fn view(&self) -> GlobalStateView {
        GlobalStateView {
            factors: factors_of(self.optimal_factor_matrix@),
            last_revise_session: self.last_revise_session,
            mean_q: match self.mean_q {
                Some(m) => Some(m@),
                None => None,
            },
            total_cards_revised: self.total_cards_revised,
        }
    }
}

/// The global state before anything was reviewed.
pub open spec fn initial_global_state() -> GlobalStateView {
    GlobalStateView {
        factors: Map::empty(),
        last_revise_session: None,
        mean_q: None,
        total_cards_revised: 0,
    }
}

impl Default for GlobalState {
    fn default() -> (g: GlobalState)
        ensures
            g@ == initial_global_state(),
    {
        let g = GlobalState {
            optimal_factor_matrix: HashMap::new(),
            last_revise_session: None,
            mean_q: None,
            total_cards_revised: 0,
        };
        assert(g@.factors =~= Map::<(u64, u64), u64>::empty());
        g
    }
}

/// The global state at the start of a session at `now`: the running mean
/// and its count start over where the last session lies more than a week
/// back, and the session is stamped `now` in any case.
pub open spec fn refreshed(g: GlobalStateView, now: Timestamp) -> GlobalStateView {
    let stale = g.last_revise_session is Some && now.as_nanos()
        - g.last_revise_session.unwrap().as_nanos() > NANOS_PER_WEEK;
    GlobalStateView {
        last_revise_session: Some(now),
        mean_q: if stale {
            None
        } else {
            g.mean_q
        },
        total_cards_revised: if stale {
            0
        } else {
            g.total_cards_revised
        },
        ..g
    }
}

/// A session resets the running mean and its count if and only if the
/// last session lies more than seven days back; seven days to the
/// nanosecond reset nothing. The session is stamped in any case, and the
/// learned factors stay.
pub proof fn refresh_resets_after_a_week(g: GlobalStateView, now: Timestamp)
    ensures
        refreshed(g, now).last_revise_session == Some(now),
        refreshed(g, now).factors == g.factors,
        (g.last_revise_session is Some && now.as_nanos()
            - g.last_revise_session.unwrap().as_nanos() > 7 * 86_400 * 1_000_000_000int)
            ==> refreshed(g, now).mean_q is None && refreshed(g, now).total_cards_revised == 0,
        !(g.last_revise_session is Some && now.as_nanos()
            - g.last_revise_session.unwrap().as_nanos() > 7 * 86_400 * 1_000_000_000int)
            ==> refreshed(g, now).mean_q == g.mean_q && refreshed(g, now).total_cards_revised
            == g.total_cards_revised,
{
}

/// Starts a session at `now`.
pub fn refresh_at(state: &mut GlobalState, now: Timestamp)
    ensures
        final(state)@ == refreshed(old(state)@, now),
{
    if let Some(last_session) = state.last_revise_session {
        if now.more_than_after(&last_session, NANOS_PER_WEEK as u128) {
            state.total_cards_revised = 0;
            state.mean_q = None;
        }
    }
    state.last_revise_session = Some(now);
}

/// Starts a session now.
pub fn refresh_global_state(state: &mut GlobalState)
    ensures
        final(state).last_revise_session is Some,
        final(state)@ == refreshed(old(state)@, final(state).last_revise_session.unwrap()),
{
    let t = now();
    refresh_at(state, t);
}

/// The store that a store file stands for: the entries that were read
/// from it, and the empty store where the file is missing or its content
/// cannot be understood.
pub fn get_db(file: Loaded<Vec<CardEntry>>) -> (db: CardDb)
    ensures
        db@ == match file {
            Loaded::Read(entries) => upserted(Map::empty(), entry_views(entries@)),
            _ => Map::empty(),
        },
{
    match file {
        Loaded::Read(entries) => CardDb::from_entries(entries),
        _ => CardDb::new(),
    }
}

/// The global state that a state file stands for: the state that was read
/// from it, and the state before anything was reviewed where the file is
/// missing or its content cannot be understood.
pub fn get_global_state(file: Loaded<GlobalState>) -> (state: GlobalState)
    ensures
        state@ == match file {
            Loaded::Read(read) => read@,
            _ => initial_global_state(),
        },
{
    match file {
        Loaded::Read(state) => state,
        _ => GlobalState::default(),
    }
}

} // verus!
