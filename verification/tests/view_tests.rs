use carddown::algorithm::{new_algorithm, Algo, MeanQuality, Quality};
use carddown::card::{Card, CardId};
use carddown::db::{CardDb, CardEntry, GlobalState};
use carddown::time::Timestamp;
use carddown::view::audit;
use carddown::view::revise::App;
use carddown::view::Key;

fn now() -> Timestamp {
    let t = chrono::Utc::now();
    Timestamp::new(t.timestamp(), t.timestamp_subsec_nanos())
}

fn create_test_app() -> App {
    let algorithm = new_algorithm(Algo::SM2);
    let card = Card {
        id: CardId::from_bytes(*blake3::hash(b"test").as_bytes()),
        file: "test.md".to_string(),
        line: 0,
        prompt: "test prompt".to_string(),
        response: vec!["test response".to_string()],
        tags: Vec::new(),
    };
    let cards = vec![CardEntry {
        added: now(),
        card,
        last_revised: None,
        revise_count: 0,
        state: Default::default(),
        leech: false,
        orphan: false,
    }];
    let global_state = GlobalState::default();
    App::new(
        algorithm,
        cards,
        global_state,
        3,           // leech_threshold
        3600,        // max_duration
        vec![],      // tags
        vec![false], // reverse_map
    )
}

fn refresh_global_state(state: &mut GlobalState) {
    state.last_revise_session = Some(now());
    state.mean_q = MeanQuality::from_millionths(0);
    state.total_cards_revised = 0;
}

#[test]
fn test_update_state_quality() {
    let mut app = create_test_app();

    // Test card state updates
    app.update_state(Quality::Perfect);

    let card = &app.cards[0];
    assert_eq!(card.revise_count, 1);
    assert!(card.last_revised.is_some());
    assert!(!card.leech);
}

#[test]
fn test_leech_threshold() {
    let mut app = create_test_app();

    // Fail the card enough times to trigger leech status
    for _ in 0..3 {
        app.ui.current_card = 0; // Reset card index for each attempt
        app.update_state(Quality::IncorrectAndForgotten);
    }

    let card = &app.cards[0];
    assert!(card.leech);
    assert_eq!(card.state.failed_count, 3);
}

#[test]
fn test_handle_key_events() {
    let mut app = create_test_app();

    // Test reveal
    app.handle_key_event(Key::Char(' '));
    assert!(app.ui.revealed);

    // Test quality input
    app.handle_key_event(Key::Char('5'));
    assert!(!app.ui.revealed);
    assert_eq!(app.ui.current_card, 1);
}

#[test]
fn test_empty_card_list() {
    let mut app = create_test_app();
    app.cards.clear();

    // Should handle empty card list gracefully
    app.update_state(Quality::Perfect);
    assert_eq!(app.ui.current_card, 0);

    // UI should show no cards message
    app.handle_key_event(Key::Char(' '));
    assert!(app.ui.revealed);
}

#[test]
fn test_card_navigation() {
    let mut app = create_test_app();
    let second_card = app.cards[0].clone(); // Clone first card for second entry
    app.cards.push(second_card);

    assert_eq!(app.ui.current_card, 0);
    app.update_state(Quality::Perfect);
    assert_eq!(app.ui.current_card, 1);

    // After processing the last card, it should trigger exit
    app.ui.current_card = app.cards.len(); // Simulate reaching end of cards
    app.update_state(Quality::Perfect);
    assert!(app.ui.exit); // Now should exit
}

// Alternative version that tests actual navigation
#[test]
fn test_card_navigation_full() {
    let mut app = create_test_app();
    let second_card = app.cards[0].clone();
    app.cards.push(second_card);

    // Process first card
    assert_eq!(app.ui.current_card, 0);
    app.handle_key_event(Key::Char('5'));
    assert_eq!(app.ui.current_card, 1);

    // Process second (last) card
    app.handle_key_event(Key::Char('5'));
    assert_eq!(app.ui.current_card, 2); // Will be at end of cards

    // One more update should trigger exit
    app.update_state(Quality::Perfect);
    assert!(app.ui.exit);
}

#[test]
fn test_help_screen() {
    let mut app = create_test_app();

    // Initially help should be hidden
    assert!(!app.ui.help);

    // Toggle help on
    app.handle_key_event(Key::Char('?'));
    assert!(app.ui.help);

    // Regular keys should be ignored when help is shown
    app.handle_key_event(Key::Char(' '));
    assert!(!app.ui.revealed);

    // Toggle help off
    app.handle_key_event(Key::Char('?'));
    assert!(!app.ui.help);
}

#[test]
fn test_quality_inputs() {
    // Test all quality inputs with both number and letter keys
    let quality_keys = [
        (('0', 'a'), Quality::IncorrectAndForgotten),
        (('1', 'd'), Quality::IncorrectButRemembered),
        (('2', 'g'), Quality::IncorrectButEasyToRecall),
        (('3', 'j'), Quality::CorrectWithDifficulty),
        (('4', 'l'), Quality::CorrectWithHesitation),
        (('5', '\''), Quality::Perfect),
    ];

    for ((num_key, letter_key), _expected_quality) in quality_keys.iter() {
        let mut app = create_test_app();

        // Test number key
        app.handle_key_event(Key::Char(*num_key));
        assert_eq!(app.ui.current_card, 1);

        // Reset and test letter key
        app = create_test_app();
        app.handle_key_event(Key::Char(*letter_key));
        assert_eq!(app.ui.current_card, 1);
    }
}

#[test]
fn test_exit_behavior() {
    let mut app = create_test_app();

    // Test normal exit
    app.handle_key_event(Key::Char('q'));
    assert!(app.ui.exit);

    // Test exit with help screen open
    let mut app = create_test_app();
    app.ui.help = true;
    app.handle_key_event(Key::Char('q'));
    assert!(!app.ui.exit); // Should close help first
    assert!(!app.ui.help);

    app.handle_key_event(Key::Char('q'));
    assert!(app.ui.exit); // Now should exit
}

#[test]
fn test_max_duration() {
    let mut app = create_test_app();
    app.max_duration = 0; // Set to 0 to test immediate timeout

    // Simulate event poll after duration
    app.check_duration(0);
    assert!(app.ui.exit);
}

#[test]
fn test_card_state_updates() {
    let mut app = create_test_app();

    // Test that card state is properly updated
    app.update_state(Quality::Perfect);
    let card = &app.cards[0];
    assert!(card.last_revised.is_some());
    assert_eq!(card.revise_count, 1);
    assert!(!card.leech);

    // Test failed count increment
    let mut app = create_test_app();
    app.update_state(Quality::IncorrectAndForgotten);
    let card = &app.cards[0];
    assert_eq!(card.state.failed_count, 1);
}

#[test]
fn test_reverse_probability() {
    let mut app = create_test_app();
    app.reverse_map = vec![true]; // Always reverse
    assert!(app.is_reversed());

    // Should still work with reversed cards
    app.handle_key_event(Key::Char(' '));
    assert!(app.ui.revealed);

    app.handle_key_event(Key::Char('5'));
    assert!(!app.ui.revealed);
    assert_eq!(app.ui.current_card, 1);
}

#[test]
fn test_card_reveal_state() {
    let mut app = create_test_app();

    // Initially card should not be revealed
    assert!(!app.ui.revealed);

    // Space should reveal card
    app.handle_key_event(Key::Char(' '));
    assert!(app.ui.revealed);

    // Quality input should hide card again
    app.handle_key_event(Key::Char('5'));
    assert!(!app.ui.revealed);
}

#[test]
fn test_invalid_quality_inputs() {
    let mut app = create_test_app();
    let initial_card = app.ui.current_card;

    // Invalid quality inputs should be ignored
    app.handle_key_event(Key::Char('6'));
    assert_eq!(app.ui.current_card, initial_card);

    app.handle_key_event(Key::Char('x'));
    assert_eq!(app.ui.current_card, initial_card);
}

#[test]
fn test_global_state_updates() {
    let mut app = create_test_app();

    // First refresh the global state
    refresh_global_state(&mut app.global_state);

    // Process a card with perfect quality
    app.update_state(Quality::Perfect);

    // Check global state updates
    assert!(app.global_state.last_revise_session.is_some());
    assert!(app.global_state.mean_q.is_some());
    assert_eq!(app.global_state.total_cards_revised, 1);
}

#[test]
fn test_leech_card_handling() {
    let mut app = create_test_app();

    // Make the card a leech
    app.cards[0].leech = true;

    // Should still be able to review leech cards
    app.handle_key_event(Key::Char(' '));
    assert!(app.ui.revealed);

    app.handle_key_event(Key::Char('5'));
    assert!(!app.ui.revealed);
    assert_eq!(app.ui.current_card, 1);
}

#[test]
fn test_orphan_card_handling() {
    let mut app = create_test_app();

    // Make the card an orphan
    app.cards[0].orphan = true;

    // Should still be able to review orphan cards
    app.handle_key_event(Key::Char(' '));
    assert!(app.ui.revealed);

    app.handle_key_event(Key::Char('5'));
    assert!(!app.ui.revealed);
}

#[test]
fn test_tag_filtering() {
    let mut app = create_test_app();

    // Add a card with a tag
    app.cards[0].card.tags.push("test_tag".to_string());

    // Set tag filter
    app.tags = vec!["test_tag".to_string()];

    // Should still be able to review cards with matching tags
    app.handle_key_event(Key::Char(' '));
    assert!(app.ui.revealed);

    // Add a card without the tag
    let mut untagged_card = app.cards[0].clone();
    untagged_card.card.tags.clear();
    app.cards.push(untagged_card);

    // Process first card
    app.handle_key_event(Key::Char('5'));
    assert_eq!(app.ui.current_card, 1);

    // Process second card
    app.handle_key_event(Key::Char('5'));
    assert_eq!(app.ui.current_card, 2); // Will be at end of cards

    // One more update should trigger exit
    app.update_state(Quality::Perfect);
    assert!(app.ui.exit);
}

#[test]
fn test_multiple_response_lines() {
    let mut app = create_test_app();
    app.cards[0].card.response = vec![
        "line 1".to_string(),
        "line 2".to_string(),
        "line 3".to_string(),
    ];

    // Should handle multi-line responses
    app.handle_key_event(Key::Char(' '));
    assert!(app.ui.revealed);
}

#[test]
fn test_consecutive_failures() {
    let mut app = create_test_app();

    // Test that consecutive failures are tracked
    for _ in 0..2 {
        app.ui.current_card = 0; // Reset position
        app.update_state(Quality::IncorrectAndForgotten);
    }

    let card = &app.cards[0];
    assert_eq!(card.state.failed_count, 2);
    assert!(!card.leech); // Should not be leech yet

    // One more failure should make it a leech
    app.ui.current_card = 0;
    app.update_state(Quality::IncorrectAndForgotten);
    assert!(app.cards[0].leech);
}

#[test]
fn test_state_persistence() {
    let mut app = create_test_app();

    // First refresh the global state
    refresh_global_state(&mut app.global_state);

    // Process a card
    app.update_state(Quality::Perfect);

    // Verify that the update_fn was called with correct state
    let card = &app.cards[0];
    assert_eq!(card.revise_count, 1);
    assert!(card.last_revised.is_some());

    // Global state should also be updated
    assert!(app.global_state.last_revise_session.is_some());
}

#[test]
fn test_keyboard_shortcuts() {
    // Test various keyboard shortcuts
    let shortcuts = [
        (Key::Char(' '), "reveal"),
        (Key::Char('q'), "quit"),
        (Key::Char('?'), "help"),
        // Add more shortcuts as needed
    ];

    for (key, action) in shortcuts.iter() {
        let mut app = create_test_app();
        app.handle_key_event(*key);

        match *action {
            "reveal" => assert!(app.ui.revealed),
            "quit" => assert!(app.ui.exit),
            "help" => assert!(app.ui.help),
            _ => panic!("Unknown action"),
        }
    }
}

#[test]
fn test_card_state_reset() {
    let mut app = create_test_app();

    // Process card with failure
    app.update_state(Quality::IncorrectAndForgotten);
    let card = &app.cards[0];
    assert_eq!(card.state.failed_count, 1);

    // Process same card with success
    app.ui.current_card = 0;
    app.update_state(Quality::Perfect);
    let card = &app.cards[0];
    assert_eq!(card.state.failed_count, 1); // Failed count should persist
    assert_eq!(card.revise_count, 2);
}

#[test]
fn test_empty_response() {
    let mut app = create_test_app();
    app.cards[0].card.response = vec![];

    // Should handle empty response gracefully
    app.handle_key_event(Key::Char(' '));
    assert!(app.ui.revealed);
}

#[test]
fn test_multiple_tags() {
    let mut app = create_test_app();
    app.cards[0].card.tags.push("tag1".to_string());
    app.cards[0].card.tags.push("tag2".to_string());

    // Should handle multiple tags
    app.tags = vec!["tag1".to_string()];
    app.handle_key_event(Key::Char(' '));
    assert!(app.ui.revealed);
}

#[test]
fn test_algorithm_updates() {
    let mut app = create_test_app();
    let initial_interval = app.cards[0].state.interval;

    // Perfect response should increase interval
    app.update_state(Quality::Perfect);
    assert!(app.cards[0].state.interval >= initial_interval);

    // Reset card state
    app = create_test_app();
    let initial_interval = app.cards[0].state.interval;

    // Failed response should reset or decrease interval
    app.update_state(Quality::IncorrectAndForgotten);
    assert!(app.cards[0].state.interval <= initial_interval);
}

#[test]
fn test_review_timestamps() {
    let mut app = create_test_app();
    assert!(app.cards[0].last_revised.is_none());

    let before_review = now().total_nanos();
    app.update_state(Quality::Perfect);
    let after_review = now().total_nanos();

    let review_time = app.cards[0].last_revised.unwrap().total_nanos();
    assert!(review_time >= before_review && review_time <= after_review);
}

#[test]
fn test_consecutive_perfect_scores() {
    let mut app = create_test_app();
    let initial_interval = app.cards[0].state.interval;

    // Multiple perfect scores should increase interval more
    for _ in 0..3 {
        app.ui.current_card = 0;
        app.update_state(Quality::Perfect);
    }

    assert!(app.cards[0].state.interval > initial_interval * 2);
}

#[test]
fn test_keyboard_modifiers() {
    let mut app = create_test_app();

    // Modifiers should be ignored
    app.handle_key_event(Key::Char(' '));
    assert!(app.ui.revealed);

    app.handle_key_event(Key::Char('q'));
    assert!(app.ui.exit);
}

#[test]
fn test_mean_quality_updates() {
    let mut app = create_test_app();
    refresh_global_state(&mut app.global_state);

    // Perfect score
    app.update_state(Quality::Perfect);
    let perfect_mean = app.global_state.mean_q.unwrap().millionths();

    // Reset and test with lower score
    let mut app = create_test_app();
    refresh_global_state(&mut app.global_state);
    app.update_state(Quality::IncorrectButRemembered);
    let lower_mean = app.global_state.mean_q.unwrap().millionths();

    assert!(perfect_mean > lower_mean);
}

#[test]
fn test_card_progression_order() {
    let mut app = create_test_app();
    let second_card = app.cards[0].clone();
    app.cards.push(second_card);

    // Cards should be reviewed in order
    assert_eq!(app.ui.current_card, 0);
    app.update_state(Quality::Perfect);
    assert_eq!(app.ui.current_card, 1);
    app.update_state(Quality::Perfect);
    assert_eq!(app.ui.current_card, 2);
}

#[test]
fn test_boundary_conditions() {
    let mut app = create_test_app();

    // Test with very large intervals
    app.cards[0].state.interval = u64::MAX / 2;
    app.update_state(Quality::Perfect);
    assert!(app.cards[0].state.interval < u64::MAX);

    app.ui.current_card = 0;

    // Test with very small intervals
    app.cards[0].state.interval = u64::MIN;
    app.update_state(Quality::IncorrectAndForgotten);
    assert_eq!(app.cards[0].state.interval, u64::MIN); // Should not go below minimum
}

#[test]
fn test_help_screen_interaction() {
    let mut app = create_test_app();

    // Help screen should block card interactions
    app.handle_key_event(Key::Char('?'));
    assert!(app.ui.help);

    app.handle_key_event(Key::Char(' '));
    assert!(!app.ui.revealed); // Should not reveal card while help is shown

    app.handle_key_event(Key::Char('5'));
    assert_eq!(app.ui.current_card, 0); // Should not progress while help is shown

    // Close help and verify interactions work again
    app.handle_key_event(Key::Char('?'));
    assert!(!app.ui.help);

    app.handle_key_event(Key::Char(' '));
    assert!(app.ui.revealed);
}

fn create_test_card() -> CardEntry {
    CardEntry {
        card: Card {
            id: CardId::from_bytes(*blake3::hash(b"test").as_bytes()),
            prompt: "test prompt".to_string(),
            response: vec!["test response".to_string()],
            tags: vec!["test_tag".to_string()],
            file: "test/file.md".to_string(),
            line: 1,
        },
        revise_count: 0,
        last_revised: None,
        added: now(),
        orphan: false,
        leech: false,
        state: Default::default(),
    }
}

fn press(app: &mut audit::App, key: Key, delete_fn: impl Fn(CardId) -> Result<(), String>) {
    if let Some(id) = app.handle_key_event(key) {
        let deleted = delete_fn(id).is_ok();
        app.finish_delete(deleted);
    }
}

#[test]
fn test_navigation() {
    let cards = vec![create_test_card(), create_test_card(), create_test_card()];
    let delete_fn = |_: CardId| Ok(());
    let mut app = audit::App::new(cards);

    // Test initial state
    assert_eq!(app.current_card, 0);

    // Test right navigation
    press(&mut app, Key::Right, delete_fn);
    assert_eq!(app.current_card, 1);

    // Test left navigation
    press(&mut app, Key::Left, delete_fn);
    assert_eq!(app.current_card, 0);

    // Test bounds
    press(&mut app, Key::Left, delete_fn);
    assert_eq!(app.current_card, 0); // Should not go below 0
}

#[test]
fn test_delete_flow() {
    let cards = vec![create_test_card()];
    let delete_fn = |_: CardId| Ok(());
    let mut app = audit::App::new(cards);

    // Test delete initiation
    press(&mut app, Key::Char('d'), delete_fn);
    assert!(app.sure);

    // Test cancel delete
    press(&mut app, Key::Char('n'), delete_fn);
    assert!(!app.sure);
    assert_eq!(app.cards.len(), 1);

    // Test confirm delete
    press(&mut app, Key::Char('d'), delete_fn);
    press(&mut app, Key::Char('y'), delete_fn);
    assert!(!app.sure);
    assert_eq!(app.cards.len(), 0);
}

#[test]
fn test_leech_card_deletion() {
    let mut card = create_test_card();
    card.leech = true;
    let cards = vec![card];
    let delete_fn = |_: CardId| Ok(());
    let mut app = audit::App::new(cards);

    // Attempt to delete leech card
    press(&mut app, Key::Char('d'), delete_fn);
    press(&mut app, Key::Char('y'), delete_fn);

    // Verify leech card wasn't deleted
    assert_eq!(app.cards.len(), 1);
    assert!(app.cards[0].leech);
}

fn numbered(lines: &[u64]) -> Vec<CardEntry> {
    lines
        .iter()
        .map(|n| {
            let mut e = create_test_card();
            e.card.line = *n;
            e.card.id = CardId::from_bytes(*blake3::hash(&n.to_le_bytes()).as_bytes());
            e
        })
        .collect()
}

fn shown(app: &audit::App) -> Vec<u64> {
    app.cards.iter().map(|e| e.card.line).collect()
}

#[test]
fn audit_deletes_through_the_store() {
    let mut app = audit::App::new(numbered(&[1, 2, 3]));
    press(&mut app, Key::Right, |_| Ok(()));
    press(&mut app, Key::Char('l'), |_| Ok(()));
    press(&mut app, Key::Char('j'), |_| Ok(()));
    assert_eq!(app.current_card, 2);

    // without the question, yes does nothing
    assert_eq!(app.handle_key_event(Key::Char('y')), None);
    assert_eq!(shown(&app), vec![1, 2, 3]);

    // the store is asked for the card that is shown
    app.handle_key_event(Key::Char('D'));
    let id = app.handle_key_event(Key::Char('Y')).unwrap();
    assert_eq!(id, numbered(&[3])[0].card.id);
    assert_eq!(shown(&app), vec![1, 2]);
    assert!(app.pending.is_some());
    // while the store works no key does anything
    assert_eq!(app.handle_key_event(Key::Char('q')), None);
    assert!(!app.exit);
    app.finish_delete(true);
    assert!(app.pending.is_none());
    assert!(!app.sure);
    assert_eq!(app.current_card, 1);

    // a deletion that fails puts the card back
    app.handle_key_event(Key::Char('h'));
    assert_eq!(app.current_card, 0);
    app.handle_key_event(Key::Char('d'));
    press(&mut app, Key::Char('y'), |_| Err("no".to_string()));
    assert_eq!(shown(&app), vec![1, 2]);
    assert_eq!(app.current_card, 0);
    assert!(!app.sure);

    // an answer that nobody waits for changes nothing
    app.finish_delete(true);
    assert_eq!(shown(&app), vec![1, 2]);

    app.handle_key_event(Key::Char('k'));
    assert_eq!(app.current_card, 0);
    app.handle_key_event(Key::Other);
    app.handle_key_event(Key::Char('x'));
    assert_eq!(shown(&app), vec![1, 2]);
    app.handle_key_event(Key::Char('Q'));
    assert!(app.exit);
}

#[test]
fn audit_moves_a_leech_to_the_end() {
    let mut cards = numbered(&[1, 2, 3]);
    cards[0].leech = true;
    let mut app = audit::App::new(cards);
    app.handle_key_event(Key::Char('d'));
    assert_eq!(app.handle_key_event(Key::Char('y')), None);
    assert_eq!(shown(&app), vec![2, 3, 1]);
    // the question stays
    assert!(app.sure);
    assert_eq!(app.current_card, 0);
}

#[test]
fn audit_of_nothing() {
    let mut app = audit::App::new(Vec::new());
    for key in [Key::Left, Key::Right, Key::Char('d'), Key::Char('y'), Key::Char('n')] {
        assert_eq!(app.handle_key_event(key), None);
        assert_eq!(app.current_card, 0);
        assert!(!app.sure);
    }
    // a position past the end asks the store for nothing
    let mut app = audit::App::new(numbered(&[1]));
    app.current_card = 4;
    app.sure = true;
    assert_eq!(app.handle_key_event(Key::Char('y')), None);
    assert_eq!(shown(&app), vec![1]);
}

#[test]
fn audit_takes_orphans_and_leeches() {
    let mut cards = numbered(&[1, 2, 3, 4]);
    cards[0].orphan = true;
    cards[2].leech = true;
    cards[3].leech = true;
    cards[3].orphan = true;
    let db = CardDb::from_entries(cards);
    let lines: Vec<u64> = audit::audit_cards(db).iter().map(|e| e.card.line).collect();
    assert_eq!(lines, vec![1, 3, 4]);
    assert!(audit::audit_cards(CardDb::new()).is_empty());
}

#[test]
fn session_hands_the_cards_back_once() {
    let mut app = create_test_app();
    app.update_state(Quality::Perfect);
    let flush = app.handle_key_event(Key::Char('q')).unwrap();
    assert_eq!(flush.len(), 1);
    assert_eq!(flush[0].revise_count, 1);
    assert!(app.ui.exit);
    assert!(app.cards.is_empty());
    // the session is over: nothing is handed back again
    assert!(app.handle_key_event(Key::Char('q')).is_none());
    assert!(app.exit().is_none());
    assert!(app.check_duration(u64::MAX).is_none());
    assert!(app.update_state(Quality::Perfect).is_none());
    assert!(app.ui.exit);
}

#[test]
fn session_ends_when_no_card_is_left() {
    let at = Timestamp::new(1_700_000_000, 0);
    let mut app = create_test_app();
    assert!(app.handle_key_event_at(Key::Char('5'), at).is_none());
    assert_eq!(app.ui.current_card, 1);
    assert_eq!(app.global_state.total_cards_revised, 1);
    // one more score: the cards go back as they are, and the score counts
    // for nothing
    let flush = app.handle_key_event_at(Key::Char('a'), at).unwrap();
    assert_eq!(flush.len(), 1);
    assert_eq!(flush[0].last_revised, Some(at));
    assert_eq!(flush[0].state.interval, 1);
    assert!(app.ui.exit);
    assert_eq!(app.global_state.total_cards_revised, 1);
    assert_eq!(app.global_state.mean_q.unwrap().millionths(), 5_000_000);
}

#[test]
fn session_time_limit() {
    let mut app = create_test_app();
    assert!(app.check_duration(3599).is_none());
    assert!(!app.ui.exit);
    let flush = app.check_duration(3600).unwrap();
    assert_eq!(flush.len(), 1);
    assert!(app.ui.exit);
}

#[test]
fn score_keys() {
    let expected = [
        ('0', 0u64), ('a', 0), ('1', 1), ('d', 1), ('2', 2), ('g', 2),
        ('3', 3), ('j', 3), ('4', 4), ('l', 4), ('5', 5), ('\'', 5),
    ];
    for (key, score) in expected {
        let mut app = create_test_app();
        app.handle_key_event(Key::Char(key));
        assert_eq!(app.global_state.mean_q.unwrap().millionths(), score * 1_000_000);
        assert_eq!(app.cards[0].state.failed_count, if score < 3 { 1 } else { 0 });
    }
    for key in [Key::Left, Key::Right, Key::Other, Key::Char('6'), Key::Char('A')] {
        let mut app = create_test_app();
        app.ui.revealed = true;
        app.handle_key_event(key);
        assert!(app.global_state.mean_q.is_none());
        assert!(app.ui.revealed);
        assert_eq!(app.ui.current_card, 0);
    }
}
