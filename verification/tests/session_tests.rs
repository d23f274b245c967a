use carddown::algorithm::sm2::Sm2;
use carddown::algorithm::sm5::Sm5;
use carddown::algorithm::{new_algorithm, Algo, Quality};
use carddown::card::{Card, CardId};
use carddown::db::{CardDb, CardEntry, GlobalState};
use carddown::session::{
    draw, due, filter_cards, filter_cards_at, finish_session, matches_tags, review_card,
    review_card_at, select, select_at, LeechMethod,
};
use carddown::time::Timestamp;

fn now() -> Timestamp {
    let t = chrono::Utc::now();
    Timestamp::new(t.timestamp(), t.timestamp_subsec_nanos())
}

const HOUR: i64 = 3_600;
const DAY: i64 = 86_400;

fn test_id() -> CardId {
    CardId::from_bytes(*blake3::hash(b"test").as_bytes())
}

fn earlier(t: Timestamp, seconds: i64) -> Timestamp {
    Timestamp::new(t.secs - seconds, t.nanos)
}

fn get_card_entry() -> CardEntry {
    let card = Card {
        id: test_id(),
        file: "tests/test.md".to_string(),
        line: 0,
        prompt: "What is the answer to life, the universe, and everything?".to_string(),
        response: vec!["42".to_string()],
        tags: vec!["card".to_string()],
    };
    CardEntry::new(card)
}

fn db_with(change: impl FnOnce(&mut CardEntry)) -> CardDb {
    let mut entry = get_card_entry();
    change(&mut entry);
    let mut db = CardDb::new();
    db.insert(entry);
    db
}

fn tags(names: &[&str]) -> Vec<String> {
    names.iter().map(|s| s.to_string()).collect()
}

#[test]
fn test_filter_cards_empty() {
    let db = CardDb::new();
    let cards = filter_cards(db, &tags(&[]), false, LeechMethod::Skip, false, 12);
    assert_eq!(cards.len(), 0);
}

#[test]
fn test_filter_cards_zero_interval() {
    let db = db_with(|entry| entry.state.interval = 0);
    let cards = filter_cards(db, &tags(&[]), false, LeechMethod::Skip, false, 12);
    assert_eq!(cards.len(), 1);
}

#[test]
fn test_filter_cards_interval_last_viewed_none() {
    let db = db_with(|entry| entry.state.interval = 1);
    let cards = filter_cards(db, &tags(&[]), false, LeechMethod::Skip, false, 12);
    assert_eq!(cards.len(), 1);
}

#[test]
fn test_filter_cards_interval() {
    let db = db_with(|entry| {
        entry.state.interval = 1;
        entry.last_revised = Some(now());
    });
    let cards = filter_cards(db, &tags(&[]), false, LeechMethod::Skip, false, 12);
    assert!(cards.is_empty());
}

#[test]
fn test_filter_cards_lapsed_interval() {
    let db = db_with(|entry| {
        entry.state.interval = 1;
        entry.last_revised = Some(earlier(now(), DAY));
    });
    let cards = filter_cards(db, &tags(&[]), false, LeechMethod::Skip, false, 12);
    assert_eq!(cards.len(), 1);
}

#[test]
fn test_filter_cards_cram_mode() {
    let db = db_with(|entry| {
        entry.last_revised = Some(earlier(now(), 13 * HOUR));
        entry.state.interval = 2;
    });
    let cards = filter_cards(db, &tags(&[]), false, LeechMethod::Skip, true, 12);
    assert_eq!(cards.len(), 1);

    let db = db_with(|entry| {
        entry.last_revised = Some(earlier(now(), 11 * HOUR));
        entry.state.interval = 2;
    });
    let cards = filter_cards(db, &tags(&[]), false, LeechMethod::Skip, true, 12);
    assert!(cards.is_empty());

    let db = db_with(|entry| {
        entry.last_revised = Some(now());
        entry.state.interval = 2;
    });
    let cards = filter_cards(db, &tags(&[]), false, LeechMethod::Skip, true, 0);
    assert_eq!(cards.len(), 1);
}

#[test]
fn test_filter_cards_matching_tags() {
    let db = db_with(|_| {});
    let cards = filter_cards(db, &tags(&["card", "test"]), false, LeechMethod::Skip, false, 12);
    assert_eq!(cards.len(), 1);
}

#[test]
fn test_filter_cards_non_matching_tags() {
    let db = db_with(|_| {});
    let cards = filter_cards(db, &tags(&["foo", "test"]), false, LeechMethod::Skip, false, 12);
    assert!(cards.is_empty());
}

#[test]
fn test_filter_cards_orphans() {
    let db = db_with(|entry| entry.orphan = true);
    let cards = filter_cards(db, &tags(&[]), false, LeechMethod::Skip, false, 12);
    assert!(cards.is_empty());
}

#[test]
fn test_filter_cards_skip_leech() {
    let db = db_with(|entry| entry.leech = true);
    let cards = filter_cards(db, &tags(&[]), false, LeechMethod::Skip, false, 12);
    assert!(cards.is_empty());
}

#[test]
fn test_filter_cards_warn_leech() {
    let db = db_with(|entry| entry.leech = true);
    let cards = filter_cards(db, &tags(&[]), false, LeechMethod::Warn, false, 12);
    assert_eq!(cards.len(), 1); // LeechMethod::Warn should include leech cards
}

#[test]
fn test_filter_cards_include_orphans() {
    let db = db_with(|entry| entry.orphan = true);
    let cards = filter_cards(db, &tags(&[]), true, LeechMethod::Skip, false, 12);
    assert_eq!(cards.len(), 1); // Should include orphaned cards when include_orphans is true
}

#[test]
fn test_filter_cards_exact_cram_boundary() {
    let db = db_with(|entry| entry.last_revised = Some(earlier(now(), 12 * HOUR)));
    let cards = filter_cards(db, &tags(&[]), false, LeechMethod::Skip, true, 12);
    assert_eq!(cards.len(), 1); // Should include cards exactly at the cram_hours boundary
}

#[test]
fn test_filter_cards_multiple_matching_tags() {
    let db = db_with(|entry| entry.card.tags.push("extra_tag".to_string()));
    let cards = filter_cards(
        db,
        &tags(&["card", "extra_tag"]),
        false,
        LeechMethod::Skip,
        false,
        12,
    );
    assert_eq!(cards.len(), 1); // Should match when card has multiple matching tags
}

#[test]
fn due_cards() {
    let at = Timestamp::new(1_700_000_000, 0);
    let entry = |last: Option<Timestamp>, interval: u64| {
        let mut e = get_card_entry();
        e.last_revised = last;
        e.state.interval = interval;
        e
    };
    // never revised: always due
    assert!(due(&entry(None, 1_000_000), at, false, 12));
    assert!(due(&entry(None, 1_000_000), at, true, usize::MAX));
    // revised two days ago with an interval of one day
    assert!(due(&entry(Some(earlier(at, 2 * DAY)), 1), at, false, 12));
    // revised just now with an interval of ten days
    assert!(!due(&entry(Some(at), 10), at, false, 12));
    // on the dot
    assert!(due(&entry(Some(earlier(at, 10 * DAY)), 10), at, false, 12));
    assert!(!due(&entry(Some(Timestamp::new(at.secs - 10 * DAY, 1)), 10), at, false, 12));
    // cram mode looks at the hours alone
    assert!(due(&entry(Some(earlier(at, 13 * HOUR)), 1_000), at, true, 12));
    assert!(!due(&entry(Some(earlier(at, 11 * HOUR)), 0), at, true, 12));
    assert!(due(&entry(Some(earlier(at, 12 * HOUR)), 0), at, true, 12));
    // the largest interval and the largest threshold are no trouble
    assert!(!due(&entry(Some(at), u64::MAX), at, false, 12));
    assert!(!due(&entry(Some(at), 0), at, true, usize::MAX));
    assert!(due(&entry(Some(at), 0), at, false, 12));
    // a review that lies in the future
    assert!(!due(&entry(Some(earlier(at, -DAY)), 0), at, false, 12));
}

#[test]
fn tag_filter() {
    assert!(matches_tags(&tags(&["a", "b"]), &tags(&[])));
    assert!(matches_tags(&tags(&[]), &tags(&[])));
    assert!(!matches_tags(&tags(&[]), &tags(&["a"])));
    assert!(matches_tags(&tags(&["a", "b"]), &tags(&["c", "b"])));
    assert!(!matches_tags(&tags(&["a", "b"]), &tags(&["c", "ab"])));
}

#[test]
fn filter_keeps_the_order_of_the_store() {
    let at = Timestamp::new(1_700_000_000, 0);
    let mut db = CardDb::new();
    let names = ["one", "two", "three", "four", "five"];
    for (i, name) in names.iter().enumerate() {
        let mut entry = CardEntry::new_at(
            Card {
                id: CardId::from_bytes(*blake3::hash(name.as_bytes()).as_bytes()),
                file: "f".to_string(),
                line: i as u64,
                prompt: name.to_string(),
                response: Vec::new(),
                tags: if i % 2 == 0 { tags(&["even"]) } else { tags(&["odd"]) },
            },
            at,
        );
        entry.leech = i == 4;
        db.insert(entry);
    }
    let cards = filter_cards_at(db, &tags(&["even"]), false, LeechMethod::Skip, false, 12, at);
    let prompts: Vec<&str> = cards.iter().map(|e| e.card.prompt.as_str()).collect();
    assert_eq!(prompts, vec!["one", "three"]);
}

#[test]
fn draw_keeps_cards_and_honours_the_maximum() {
    let cards: Vec<CardEntry> = (0..20u64)
        .map(|i| {
            let mut e = get_card_entry();
            e.card.line = i;
            e
        })
        .collect();
    let drawn = draw(cards.clone(), 7);
    assert_eq!(drawn.len(), 7);
    let mut lines: Vec<u64> = drawn.iter().map(|e| e.card.line).collect();
    lines.sort();
    lines.dedup();
    assert_eq!(lines.len(), 7);
    assert!(lines.iter().all(|l| *l < 20));

    let all = draw(cards.clone(), 50);
    let mut lines: Vec<u64> = all.iter().map(|e| e.card.line).collect();
    lines.sort();
    assert_eq!(lines, (0..20).collect::<Vec<u64>>());
    assert!(draw(cards.clone(), 0).is_empty());
    assert!(draw(Vec::new(), 3).is_empty());
    assert_eq!(draw(cards, 20).len(), 20);
}

#[test]
fn select_takes_due_cards_only() {
    let at = Timestamp::new(1_700_000_000, 0);
    let mut db = CardDb::new();
    for i in 0..10u64 {
        let mut entry = CardEntry::new_at(
            Card {
                id: CardId::from_bytes(*blake3::hash(&[i as u8]).as_bytes()),
                file: "f".to_string(),
                line: i,
                prompt: "p".to_string(),
                response: Vec::new(),
                tags: Vec::new(),
            },
            at,
        );
        if i >= 6 {
            entry.last_revised = Some(at);
            entry.state.interval = 3;
        }
        db.insert(entry);
    }
    let cards = select_at(db, &tags(&[]), false, LeechMethod::Skip, false, 12, 4, at);
    assert_eq!(cards.len(), 4);
    assert!(cards.iter().all(|e| e.card.line < 6));
}

#[test]
fn review_counts_stamps_and_marks_leeches() {
    let at = Timestamp::new(1_700_000_000, 0);
    let sm2 = Sm2 {};
    let mut global = GlobalState::default();
    let mut entry = get_card_entry();
    review_card_at(&sm2, &mut entry, Quality::Perfect, &mut global, 3, at);
    assert_eq!(entry.revise_count, 1);
    assert_eq!(entry.last_revised, Some(at));
    assert!(!entry.leech);
    assert_eq!(entry.state.interval, 1);
    assert_eq!(global.total_cards_revised, 1);
    assert_eq!(global.mean_q.unwrap().millionths(), 5_000_000);

    for round in 1..=3u64 {
        assert!(!entry.leech);
        review_card_at(&sm2, &mut entry, Quality::IncorrectAndForgotten, &mut global, 3, at);
        assert_eq!(entry.state.failed_count, round);
    }
    assert!(entry.leech);
    assert_eq!(entry.revise_count, 4);
    // a leech stays a leech
    review_card_at(&sm2, &mut entry, Quality::Perfect, &mut global, 10, at);
    assert!(entry.leech);
    assert_eq!(entry.state.failed_count, 3);
    assert_eq!(global.total_cards_revised, 5);
    // (5 + 0 + 0 + 0 + 5) / 5
    assert_eq!(global.mean_q.unwrap().millionths(), 2_000_000);

    // a threshold of zero makes a leech of every card
    let mut entry = get_card_entry();
    review_card_at(&sm2, &mut entry, Quality::Perfect, &mut global, 0, at);
    assert!(entry.leech);

    // the five-parameter model counts no failures, so it makes no leeches
    let mut entry = get_card_entry();
    for _ in 0..5 {
        review_card_at(&Sm5 {}, &mut entry, Quality::IncorrectAndForgotten, &mut global, 3, at);
    }
    assert!(!entry.leech);
    assert_eq!(entry.revise_count, 5);
}

#[test]
fn review_sees_the_mean_that_includes_it() {
    let at = Timestamp::new(1_700_000_000, 0);
    let simple8 = new_algorithm(Algo::Simple8);
    let mut global = GlobalState::default();
    let mut entry = get_card_entry();
    entry.state.repetitions = 1;
    entry.state.interval = 2;
    review_card_at(&simple8, &mut entry, Quality::Perfect, &mut global, 15, at);
    // the mean is 5 by now: ease 5.815, 2 * 5.815 = 11.63
    assert_eq!(entry.state.interval, 12);
    review_card_at(&simple8, &mut entry, Quality::CorrectWithDifficulty, &mut global, 15, at);
    // the mean is 4: ease 3.2039, factor 1.2 + 2.0039 / 2, 12 * 2.20195 = 26.4
    assert_eq!(entry.state.interval, 26);
}

#[test]
fn review_now() {
    let before = now();
    let mut global = GlobalState::default();
    let mut entry = get_card_entry();
    review_card(&Sm2 {}, &mut entry, Quality::CorrectWithHesitation, &mut global, 15);
    let at = entry.last_revised.unwrap();
    assert!(before.total_nanos() <= at.total_nanos());
    assert!(at.total_nanos() <= now().total_nanos());
    assert_eq!(entry.revise_count, 1);
}

#[test]
fn cram_sessions_leave_no_trace() {
    let mut reviewed = get_card_entry();
    reviewed.revise_count = 5;
    let mut db = db_with(|_| {});
    assert!(!finish_session(&mut db, vec![reviewed.clone()], true));
    assert_eq!(db.get(&test_id()).unwrap().revise_count, 0);
    assert!(finish_session(&mut db, vec![reviewed], false));
    assert_eq!(db.get(&test_id()).unwrap().revise_count, 5);
    assert_eq!(db.len(), 1);
}

#[test]
fn draw_puts_the_cards_in_a_new_order() {
    let cards: Vec<CardEntry> = (0..20u64)
        .map(|i| {
            let mut e = get_card_entry();
            e.card.line = i;
            e
        })
        .collect();
    let in_order: Vec<u64> = (0..20).collect();
    let mut moved = false;
    for _ in 0..10 {
        let drawn = draw(cards.clone(), 20);
        let lines: Vec<u64> = drawn.iter().map(|e| e.card.line).collect();
        moved |= lines != in_order;
    }
    assert!(moved);
}

#[test]
fn select_now() {
    let db = db_with(|entry| entry.last_revised = Some(earlier(now(), 3 * DAY)));
    assert_eq!(select(db, &tags(&[]), false, LeechMethod::Skip, false, 12, 5).len(), 1);
    let db = db_with(|entry| {
        entry.last_revised = Some(now());
        entry.state.interval = 1;
    });
    assert!(select(db, &tags(&[]), false, LeechMethod::Skip, false, 12, 5).is_empty());
    let db = db_with(|_| {});
    assert!(select(db, &tags(&[]), false, LeechMethod::Skip, false, 12, 0).is_empty());
}
