//! Which cards a review session presents, and what one review does to a
//! card.

use vstd::prelude::*;
use crate::algorithm::{with_review, update_meanq, Algorithm, CardStateView, Quality};
use crate::text::{has_text, texts};
use crate::db::{
    as_map, choice_keeps_entries, distinct_ids, entries_are_the_values, entry_views, update_cards,
    upserted, CardDb, CardEntry, CardEntryView, GlobalState, GlobalStateView,
};
use crate::fixed::{increment, successor};
use crate::time::{now, Timestamp, NANOS_PER_DAY, NANOS_PER_HOUR};
use rand::seq::SliceRandom;

verus! {

/// What to do with a leech, a card that has failed too often.
#[derive(Debug, Clone, Copy, PartialEq, Eq, Structural)]
pub enum LeechMethod {
    /// Leave leeches out of the session.
    Skip,
    /// Present them; whoever shows the card warns of it.
    Warn,
}

/// Whether a card is due at `now`. A card that was never reviewed is. In
/// cram mode a card is due once `cram_hours` hours have passed since its
/// last review; else once its interval, in days, has.
pub open spec fn is_due(
    entry: CardEntryView,
    now: Timestamp,
    cram_mode: bool,
    cram_hours: usize,
) -> bool {
    match entry.last_revised {
        None => true,
        Some(last) => if cram_mode {
            now.as_nanos() - last.as_nanos() >= cram_hours * NANOS_PER_HOUR
        } else {
            now.as_nanos() >= last.as_nanos() + entry.state.interval * NANOS_PER_DAY
        },
    }
}

/// Whether a card with the tags `tags` passes the filter `wanted`: every
/// card passes the empty filter, else the card has one of the wanted tags.
pub open spec fn tags_match(tags: Set<Seq<char>>, wanted: Set<Seq<char>>) -> bool {
    wanted == Set::<Seq<char>>::empty() || exists|t: Seq<char>|
        #[trigger] tags.contains(t) && wanted.contains(t)
}

/// Whether a session presents a card: it is due, it passes the tag
/// filter, it is no orphan unless orphans are included, and it is no leech
/// unless leeches are only warned of.
pub open spec fn eligible(
    entry: CardEntryView,
    wanted: Set<Seq<char>>,
    include_orphans: bool,
    leech_method: LeechMethod,
    cram_mode: bool,
    cram_hours: usize,
    now: Timestamp,
) -> bool {
    &&& is_due(entry, now, cram_mode, cram_hours)
    &&& tags_match(entry.card.tags, wanted)
    &&& (include_orphans || !entry.orphan)
    &&& !(leech_method == LeechMethod::Skip && entry.leech)
}

/// The cards among `entries` that a session presents, in their order.
pub open spec fn presented(
    entries: Seq<CardEntryView>,
    wanted: Set<Seq<char>>,
    include_orphans: bool,
    leech_method: LeechMethod,
    cram_mode: bool,
    cram_hours: usize,
    now: Timestamp,
) -> Seq<CardEntryView> {
    entries.filter(
        |e: CardEntryView|
            eligible(e, wanted, include_orphans, leech_method, cram_mode, cram_hours, now),
    )
}

/// Whether `cards` are a draw of at most `maximum` from `due`: as many as
/// `maximum`, or all of `due` where they are fewer, and each of them one of
/// `due`, no more often than it is there.
pub open spec fn is_draw_from(
    cards: Seq<CardEntryView>,
    due: Seq<CardEntryView>,
    maximum: usize,
) -> bool {
    &&& cards.len() == if maximum < due.len() {
        maximum as nat
    } else {
        due.len()
    }
    &&& cards.to_multiset().subset_of(due.to_multiset())
}

/// Whether `cards` are the cards of the store `store` that a session
/// presents: each card of the store that is eligible, once, and no other.
pub open spec fn is_choice_from(
    cards: Seq<CardEntryView>,
    store: Map<Seq<u8>, CardEntryView>,
    wanted: Set<Seq<char>>,
    include_orphans: bool,
    leech_method: LeechMethod,
    cram_mode: bool,
    cram_hours: usize,
    now: Timestamp,
) -> bool {
    &&& distinct_ids(cards)
    &&& forall|e: CardEntryView| #[trigger]
        cards.contains(e) <==> store.contains_key(e.card.id) && store[e.card.id] == e
            && eligible(e, wanted, include_orphans, leech_method, cram_mode, cram_hours, now)
}

/// A session presents the cards of the store that are eligible, each once,
/// and no others.
pub proof fn presented_are_the_eligible(
    entries: Seq<CardEntryView>,
    wanted: Set<Seq<char>>,
    include_orphans: bool,
    leech_method: LeechMethod,
    cram_mode: bool,
    cram_hours: usize,
    now: Timestamp,
)
    requires
        distinct_ids(entries),
    ensures
        is_choice_from(
            presented(entries, wanted, include_orphans, leech_method, cram_mode, cram_hours, now),
            as_map(entries),
            wanted,
            include_orphans,
            leech_method,
            cram_mode,
            cram_hours,
            now,
        ),
{
    let pred = |e: CardEntryView|
        eligible(e, wanted, include_orphans, leech_method, cram_mode, cram_hours, now);
    choice_keeps_entries(entries, pred);
    assert forall|e: CardEntryView| #[trigger]
        presented(
            entries,
            wanted,
            include_orphans,
            leech_method,
            cram_mode,
            cram_hours,
            now,
        ).contains(e) <==> as_map(entries).contains_key(e.card.id) && as_map(entries)[e.card.id]
            == e && eligible(
            e,
            wanted,
            include_orphans,
            leech_method,
            cram_mode,
            cram_hours,
            now,
        ) by {
        entries_are_the_values(entries, e);
    }
}

/// A card that was never reviewed is due at any time, in cram mode and out
/// of it.
pub proof fn never_reviewed_is_due(
    entry: CardEntryView,
    now: Timestamp,
    cram_mode: bool,
    cram_hours: usize,
)
    requires
        entry.last_revised is None,
    ensures
        is_due(entry, now, cram_mode, cram_hours),
{
}

/// A card that is due stays due as time goes on.
pub proof fn due_stays_due(
    entry: CardEntryView,
    now: Timestamp,
    later: Timestamp,
    cram_mode: bool,
    cram_hours: usize,
)
    requires
        is_due(entry, now, cram_mode, cram_hours),
        now.as_nanos() <= later.as_nanos(),
    ensures
        is_due(entry, later, cram_mode, cram_hours),
{
}

proof fn lemma_presented_push(
    entries: Seq<CardEntryView>,
    e: CardEntryView,
    wanted: Set<Seq<char>>,
    include_orphans: bool,
    leech_method: LeechMethod,
    cram_mode: bool,
    cram_hours: usize,
    now: Timestamp,
)
    ensures
        presented(
            entries.push(e),
            wanted,
            include_orphans,
            leech_method,
            cram_mode,
            cram_hours,
            now,
        ) == if eligible(e, wanted, include_orphans, leech_method, cram_mode, cram_hours, now) {
            presented(
                entries,
                wanted,
                include_orphans,
                leech_method,
                cram_mode,
                cram_hours,
                now,
            ).push(e)
        } else {
            presented(entries, wanted, include_orphans, leech_method, cram_mode, cram_hours, now)
        },
{
    reveal(Seq::filter);
    assert(entries.push(e).drop_last() =~= entries);
}

/// Whether `entry` is due at `now`.
pub fn due(entry: &CardEntry, now: Timestamp, cram_mode: bool, cram_hours: usize) -> (r: bool)
    ensures
        r == is_due(entry@, now, cram_mode, cram_hours),
{
    match entry.last_revised {
        None => true,
        Some(last) => {
            if cram_mode {
                assert(cram_hours as nat * 3_600_000_000_000 <= 0xffff_ffff_ffff_ffff
                    * 3_600_000_000_000) by (nonlinear_arith)
                    requires
                        cram_hours <= 0xffff_ffff_ffff_ffff,
                ;
                let gap: u128 = cram_hours as u128 * NANOS_PER_HOUR as u128;
                now.at_least_after(&last, gap)
            } else {
                assert(entry.state.interval as nat * 86_400_000_000_000 <= 0xffff_ffff_ffff_ffff
                    * 86_400_000_000_000) by (nonlinear_arith)
                    requires
                        entry.state.interval <= 0xffff_ffff_ffff_ffff,
                ;
                let gap: u128 = entry.state.interval as u128 * NANOS_PER_DAY as u128;
                now.at_least_after(&last, gap)
            }
        },
    }
}

/// Whether a card with the tags `tags` passes the filter `wanted`.
pub fn matches_tags(tags: &Vec<String>, wanted: &Vec<String>) -> (r: bool)
    ensures
        r == tags_match(texts(tags@).to_set(), texts(wanted@).to_set()),
{
    if wanted.len() == 0 {
        assert(texts(wanted@).to_set() =~= Set::<Seq<char>>::empty());
        return true;
    }
    proof {
        assert(texts(wanted@).contains(texts(wanted@)[0]));
        assert(texts(wanted@).to_set().contains(texts(wanted@)[0]));
    }
    let mut i: usize = 0;
    while i < tags.len()
        invariant
            i <= tags.len(),
            forall|j: int|
                0 <= j < i ==> !texts(wanted@).to_set().contains(#[trigger] texts(tags@)[j]),
        decreases tags.len() - i,
    {
        if has_text(wanted, &tags[i]) {
            assert(texts(tags@)[i as int] == tags[i as int]@);
            assert(texts(tags@).contains(tags[i as int]@));
            assert(texts(tags@).to_set().contains(tags[i as int]@));
            return true;
        }
        i = i + 1;
    }
    proof {
        if exists|t: Seq<char>| #[trigger]
            texts(tags@).to_set().contains(t) && texts(wanted@).to_set().contains(t) {
            let t = choose|t: Seq<char>| #[trigger]
                texts(tags@).to_set().contains(t) && texts(wanted@).to_set().contains(t);
            let j = choose|j: int| 0 <= j < texts(tags@).len() && texts(tags@)[j] == t;
            assert(!texts(wanted@).to_set().contains(texts(tags@)[j]));
        }
    }
    false
}

/// The cards of the store that a session at `now` presents, in the order
/// the store keeps them.
pub fn filter_cards_at(
    db: CardDb,
    tags: &Vec<String>,
    include_orphans: bool,
    leech_method: LeechMethod,
    cram_mode: bool,
    cram_hours: usize,
    now: Timestamp,
) -> (cards: Vec<CardEntry>)
    ensures
        entry_views(cards@) == presented(
            db.seq(),
            texts(tags@).to_set(),
            include_orphans,
            leech_method,
            cram_mode,
            cram_hours,
            now,
        ),
        is_choice_from(
            entry_views(cards@),
            db@,
            texts(tags@).to_set(),
            include_orphans,
            leech_method,
            cram_mode,
            cram_hours,
            now,
        ),
{
    let ghost wanted = texts(tags@).to_set();
    let ghost all = db.seq();
    let entries = db.into_values();
    proof {
        presented_are_the_eligible(
            all,
            wanted,
            include_orphans,
            leech_method,
            cram_mode,
            cram_hours,
            now,
        );
    }
    let mut cards: Vec<CardEntry> = Vec::new();
    proof {
        reveal(Seq::filter);
        assert(all.take(0) =~= Seq::<CardEntryView>::empty());
    }
    for entry in it: entries.into_iter()
        invariant
            it.seq() == entries@,
            all == entry_views(entries@),
            wanted == texts(tags@).to_set(),
            entry_views(cards@) == presented(
                all.take(it.index() as int),
                wanted,
                include_orphans,
                leech_method,
                cram_mode,
                cram_hours,
                now,
            ),
    {
        proof {
            let k = it.index() as int;
            assert(all.take(k + 1) =~= all.take(k).push(entry@));
            lemma_presented_push(
                all.take(k),
                entry@,
                wanted,
                include_orphans,
                leech_method,
                cram_mode,
                cram_hours,
                now,
            );
        }
        let keep = due(&entry, now, cram_mode, cram_hours) && matches_tags(&entry.card.tags, tags)
            && (include_orphans || !entry.orphan) && !(leech_method == LeechMethod::Skip
            && entry.leech);
        if keep {
            let ghost before = entry_views(cards@);
            cards.push(entry);
            assert(entry_views(cards@) =~= before.push(entry@));
        }
    }
    assert(all.take(all.len() as int) =~= all);
    cards
}

/// The cards of the store that a session presents now, in the order the
/// store keeps them.
pub fn filter_cards(
    db: CardDb,
    tags: &Vec<String>,
    include_orphans: bool,
    leech_method: LeechMethod,
    cram_mode: bool,
    cram_hours: usize,
) -> (cards: Vec<CardEntry>)
    ensures
        exists|now: Timestamp|
            entry_views(cards@) == #[trigger] presented(
                db.seq(),
                texts(tags@).to_set(),
                include_orphans,
                leech_method,
                cram_mode,
                cram_hours,
                now,
            ) && is_choice_from(
                entry_views(cards@),
                db@,
                texts(tags@).to_set(),
                include_orphans,
                leech_method,
                cram_mode,
                cram_hours,
                now,
            ),
{
    let t = now();
    filter_cards_at(db, tags, include_orphans, leech_method, cram_mode, cram_hours, t)
}

/// Puts the cards in a random order, with `rand`'s `SliceRandom::shuffle`
/// and the thread's generator. The claim is what holds of every outcome:
/// the same cards are there, each as often as before.
#[verifier::external_body]
fn shuffle(cards: &mut Vec<CardEntry>)
    ensures
        entry_views(final(cards)@).to_multiset() == entry_views(old(cards)@).to_multiset(),
{
    cards.shuffle(&mut rand::rng());
}

/// The first `maximum` of `cards` after a shuffle: as many cards as asked
/// for, or all where there are fewer, and each of them one of `cards`.
pub fn draw(cards: Vec<CardEntry>, maximum: usize) -> (drawn: Vec<CardEntry>)
    ensures
        is_draw_from(entry_views(drawn@), entry_views(cards@), maximum),
{
    let mut cards = cards;
    let ghost given = entry_views(cards@);
    shuffle(&mut cards);
    let ghost shuffled = entry_views(cards@);
    proof {
        shuffled.to_multiset_ensures();
        given.to_multiset_ensures();
    }
    if maximum < cards.len() {
        cards.truncate(maximum);
        proof {
            let kept = entry_views(cards@);
            let rest = shuffled.skip(maximum as int);
            assert(kept =~= shuffled.take(maximum as int));
            assert(shuffled =~= kept + rest);
            vstd::seq_lib::lemma_multiset_commutative(kept, rest);
        }
    }
    cards
}

/// The cards of a session at `now`: of the cards that the store presents,
/// as many as `maximum`, picked at random and in a random order.
pub fn select_at(
    db: CardDb,
    tags: &Vec<String>,
    include_orphans: bool,
    leech_method: LeechMethod,
    cram_mode: bool,
    cram_hours: usize,
    maximum: usize,
    now: Timestamp,
) -> (cards: Vec<CardEntry>)
    ensures
        is_draw_from(
            entry_views(cards@),
            presented(
                db.seq(),
                texts(tags@).to_set(),
                include_orphans,
                leech_method,
                cram_mode,
                cram_hours,
                now,
            ),
            maximum,
        ),
{
    let due_cards = filter_cards_at(
        db,
        tags,
        include_orphans,
        leech_method,
        cram_mode,
        cram_hours,
        now,
    );
    draw(due_cards, maximum)
}

/// The cards of a session that starts now.
pub fn select(
    db: CardDb,
    tags: &Vec<String>,
    include_orphans: bool,
    leech_method: LeechMethod,
    cram_mode: bool,
    cram_hours: usize,
    maximum: usize,
) -> (cards: Vec<CardEntry>)
    ensures
        exists|now: Timestamp|
            is_draw_from(
                entry_views(cards@),
                #[trigger] presented(
                    db.seq(),
                    texts(tags@).to_set(),
                    include_orphans,
                    leech_method,
                    cram_mode,
                    cram_hours,
                    now,
                ),
                maximum,
            ),
{
    let t = now();
    select_at(db, tags, include_orphans, leech_method, cram_mode, cram_hours, maximum, t)
}

/// What a review at `now` leaves of an entry whose card's state becomes
/// `state`: the review is counted and stamped, and the card becomes a leech
/// once its failures reach `leech_threshold`. A leech stays one.
pub open spec fn reviewed(
    entry: CardEntryView,
    state: CardStateView,
    leech_threshold: usize,
    now: Timestamp,
) -> CardEntryView {
    CardEntryView {
        last_revised: Some(now),
        revise_count: successor(entry.revise_count),
        state,
        leech: entry.leech || state.failed_count >= leech_threshold,
        ..entry
    }
}

/// A review never clears a leech, and it makes one of a card exactly when
/// the card's failures have reached the threshold.
pub proof fn leech_is_never_cleared(
    entry: CardEntryView,
    state: CardStateView,
    leech_threshold: usize,
    now: Timestamp,
)
    ensures
        entry.leech ==> reviewed(entry, state, leech_threshold, now).leech,
        !entry.leech ==> (reviewed(entry, state, leech_threshold, now).leech
            <==> state.failed_count >= leech_threshold),
{
}

/// Takes one review of a card, at `now`, into the card's entry and the
/// global state. The review first goes into the running mean of the
/// scores, then the model sees it.
pub fn review_card_at<A: Algorithm>(
    algorithm: &A,
    entry: &mut CardEntry,
    quality: Quality,
    global: &mut GlobalState,
    leech_threshold: usize,
    now: Timestamp,
)
    ensures
        final(entry)@ == reviewed(
            old(entry)@,
            algorithm.state_after(quality, old(entry)@.state, with_review(old(global)@, quality)),
            leech_threshold,
            now,
        ),
        final(global)@ == (GlobalStateView {
            factors: algorithm.factors_after(
                quality,
                old(entry)@.state,
                with_review(old(global)@, quality),
            ),
            ..with_review(old(global)@, quality)
        }),
{
    update_meanq(global, quality);
    entry.last_revised = Some(now);
    entry.revise_count = increment(entry.revise_count);
    algorithm.update_state(&quality, &mut entry.state, global);
    if entry.state.failed_count as u128 >= leech_threshold as u128 {
        entry.leech = true;
    }
}

/// Takes one review of a card, made now, into the card's entry and the
/// global state.
pub fn review_card<A: Algorithm>(
    algorithm: &A,
    entry: &mut CardEntry,
    quality: Quality,
    global: &mut GlobalState,
    leech_threshold: usize,
)
    ensures
        final(entry).last_revised is Some,
        final(entry)@ == reviewed(
            old(entry)@,
            algorithm.state_after(quality, old(entry)@.state, with_review(old(global)@, quality)),
            leech_threshold,
            final(entry).last_revised.unwrap(),
        ),
        final(global)@ == (GlobalStateView {
            factors: algorithm.factors_after(
                quality,
                old(entry)@.state,
                with_review(old(global)@, quality),
            ),
            ..with_review(old(global)@, quality)
        }),
{
    let t = now();
    review_card_at(algorithm, entry, quality, global, leech_threshold, t);
}

/// Takes the cards of a session that has ended into the store, and says
/// whether the store and the global state are to be saved. A cram session
/// leaves no trace: its cards are dropped and nothing is saved.
pub fn finish_session(db: &mut CardDb, cards: Vec<CardEntry>, cram_mode: bool) -> (save: bool)
    ensures
        save == !cram_mode,
        final(db)@ == if cram_mode {
            old(db)@
        } else {
            upserted(old(db)@, entry_views(cards@))
        },
{
    if cram_mode {
        false
    } else {
        update_cards(db, cards);
        true
    }
}

} // verus!
