use fast_discord_tui::models::{QueuedItem, ReactionDelayMode};
use fast_discord_tui::proxy::state::ProxyState;

fn item(text: &str) -> QueuedItem {
    QueuedItem { content: text.to_string(), number: 0, was_empty: false }
}

#[test]
fn new_state_defaults() {
    let s = ProxyState::new();
    assert!(s.is_queue_mode_enabled());
    assert_eq!(s.get_hardware_delay(), 45);
    assert_eq!(s.get_reaction_delay_mode(), ReactionDelayMode::Normal);
    assert_eq!(s.get_target_channel_id(), "");
    assert_eq!(s.get_current_token("fallback"), "fallback");
}

#[test]
fn target_channel_is_trimmed() {
    let mut s = ProxyState::new();
    s.set_target_channel_id("  42 \n");
    assert_eq!(s.get_target_channel_id(), "42");
}

#[test]
fn queue_is_first_in_first_out() {
    let mut s = ProxyState::new();
    let q = s.enqueue_item("c", item("one"));
    assert_eq!(q.len(), 1);
    assert!(q[0].was_empty);
    let q = s.enqueue_item("c", item("two"));
    assert_eq!(q.len(), 2);
    assert!(!q[1].was_empty);
    let (first, rest) = s.pop_next_item("c").unwrap();
    assert_eq!(first.content, "one");
    assert!(first.was_empty);
    assert_eq!(rest.len(), 1);
    assert_eq!(rest[0].content, "two");
    let (second, rest) = s.pop_next_item("c").unwrap();
    assert_eq!(second.content, "two");
    assert!(rest.is_empty());
    assert!(s.pop_next_item("c").is_none());
    assert!(s.pop_next_item("other").is_none());
}

#[test]
fn queues_are_per_channel() {
    let mut s = ProxyState::new();
    s.enqueue_item("a", item("x"));
    s.enqueue_item("b", item("y"));
    assert_eq!(s.pop_next_item("b").unwrap().0.content, "y");
    assert_eq!(s.pop_next_item("a").unwrap().0.content, "x");
}

#[test]
fn clear_queue_and_queue_mode() {
    let mut s = ProxyState::new();
    s.enqueue_item("a", item("x"));
    s.enqueue_item("b", item("y"));
    assert!(s.clear_queue("a").is_empty());
    assert!(s.pop_next_item("a").is_none());
    assert!(s.clear_queue("missing").is_empty());
    s.set_queue_mode(true);
    assert!(s.pop_next_item("b").is_some());
    s.enqueue_item("b", item("z"));
    s.set_queue_mode(false);
    assert!(!s.is_queue_mode_enabled());
    assert!(s.pop_next_item("b").is_none());
    // An item added after clearing finds the queue empty again.
    let q = s.enqueue_item("b", item("w"));
    assert!(q[0].was_empty);
}

#[test]
fn clear_all_queues_empties_every_channel() {
    let mut s = ProxyState::new();
    s.enqueue_item("a", item("1"));
    s.enqueue_item("b", item("2"));
    s.enqueue_item("b", item("3"));
    s.clear_all_queues();
    assert!(s.pop_next_item("a").is_none());
    assert!(s.pop_next_item("b").is_none());
}

#[test]
fn self_author_by_id_or_name() {
    let mut s = ProxyState::new();
    assert!(!s.is_self_author("1", "me"));
    s.register_self_info("1", "me");
    assert!(s.is_self_author("1", ""));
    assert!(s.is_self_author("", "me"));
    assert!(s.is_self_author("2", "me"));
    assert!(!s.is_self_author("2", "you"));
    s.register_self_info("", "");
    assert!(!s.is_self_author("", ""));
}

#[test]
fn processed_messages() {
    let mut s = ProxyState::new();
    assert!(!s.is_message_already_processed("c", "m1"));
    assert!(s.try_mark_message_processed("c", "m1"));
    assert!(s.is_message_already_processed("c", "m1"));
    assert!(!s.try_mark_message_processed("c", "m1"));
    assert!(!s.is_message_already_processed("d", "m1"));
    s.set_last_processed_message_id("c", "m2");
    // Earlier marks stay: both messages count as processed.
    assert!(s.is_message_already_processed("c", "m1"));
    assert!(s.is_message_already_processed("c", "m2"));
    // Empty ids are never recorded.
    assert!(s.try_mark_message_processed("c", ""));
    assert!(!s.is_message_already_processed("c", ""));
    s.set_last_processed_message_id("c", "");
    assert!(s.is_message_already_processed("c", "m2"));
}

#[test]
fn token_rotation_with_two_tokens() {
    let mut s = ProxyState::new();
    s.set_token_rotation_config(vec!["t1".to_string(), "t2".to_string()], 2);
    assert_eq!(s.get_current_token("f"), "t1");
    s.check_and_swap_token(150);
    assert_eq!(s.get_current_token("f"), "t1");
    s.check_and_swap_token(200);
    assert_eq!(s.get_current_token("f"), "t2");
    s.check_and_swap_token(-300);
    assert_eq!(s.get_current_token("f"), "t1");
}

#[test]
fn token_rotation_with_three_tokens() {
    let mut s = ProxyState::new();
    let tokens = vec!["a".to_string(), "b".to_string(), "c".to_string()];
    s.set_token_rotation_config(tokens, 3);
    s.check_and_swap_token(50);
    assert_eq!(s.get_current_token("f"), "b");
    s.check_and_swap_token(100);
    assert_eq!(s.get_current_token("f"), "c");
    s.check_and_swap_token(49);
    assert_eq!(s.get_current_token("f"), "c");
    s.check_and_swap_token(0);
    assert_eq!(s.get_current_token("f"), "a");
    // Reconfiguring starts over at the first token.
    s.check_and_swap_token(50);
    s.set_token_rotation_config(vec!["x".to_string(), "y".to_string(), "z".to_string()], 3);
    assert_eq!(s.get_current_token("f"), "x");
}

#[test]
fn token_rotation_limited_by_token_count() {
    let mut s = ProxyState::new();
    // Three requested, two available: the two-token rule applies.
    s.set_token_rotation_config(vec!["a".to_string(), "b".to_string()], 3);
    s.check_and_swap_token(50);
    assert_eq!(s.get_current_token("f"), "a");
    s.check_and_swap_token(100);
    assert_eq!(s.get_current_token("f"), "b");
    // One token: never swaps.
    s.set_token_rotation_config(vec!["only".to_string()], 2);
    s.check_and_swap_token(100);
    assert_eq!(s.get_current_token("f"), "only");
    assert!(!s.token_swap_checks_number());
}

#[test]
fn counting_counts_on() {
    let mut s = ProxyState::new();
    assert_eq!(s.evaluate_next_count("c", "10 nice"), Some("11".to_string()));
    assert_eq!(s.last_number("c"), Some(10));
    assert_eq!(s.run_length("c"), 1);
    assert_eq!(s.evaluate_next_count("c", "11 gg"), Some("12 ggs!".to_string()));
    assert_eq!(s.run_length("c"), 2);
    assert_eq!(s.evaluate_next_count("c", "hello"), None);
    assert_eq!(s.run_length("c"), 2);
}

#[test]
fn counting_fallback_after_four_in_a_row() {
    let mut s = ProxyState::new();
    s.register_sent_number("c", 100);
    assert_eq!(s.evaluate_next_count("c", "101"), Some("102".to_string()));
    assert_eq!(s.evaluate_next_count("c", "102"), Some("103".to_string()));
    assert_eq!(s.evaluate_next_count("c", "103"), Some("104".to_string()));
    assert_eq!(s.run_length("c"), 4);
    // 500 breaks the run: reply with our last number plus 2.
    assert_eq!(s.evaluate_next_count("c", "500"), Some("102".to_string()));
    assert_eq!(s.run_length("c"), 0);
    assert_eq!(s.last_number("c"), Some(500));
    // The flag was cleared: the next break counts on normally.
    assert_eq!(s.evaluate_next_count("c", "7"), Some("8".to_string()));
}

#[test]
fn counting_without_own_number_counts_on() {
    let mut s = ProxyState::new();
    for n in 1..=5 {
        assert_eq!(s.evaluate_next_count("c", &n.to_string()), Some((n + 1).to_string()));
    }
    assert_eq!(s.evaluate_next_count("c", "50"), Some("51".to_string()));
    assert_eq!(s.run_length("c"), 1);
}

#[test]
fn sent_numbers_extend_the_run() {
    let mut s = ProxyState::new();
    s.register_sent_number("c", 1);
    s.register_sent_number("c", 2);
    assert_eq!(s.run_length("c"), 2);
    s.register_sent_number("c", 10);
    assert_eq!(s.run_length("c"), 1);
    assert_eq!(s.last_number("c"), Some(10));
}

#[test]
fn overflow_guards() {
    let mut s = ProxyState::new();
    assert!(!s.can_evaluate_next_count("c", "9223372036854775807"));
    assert!(s.can_evaluate_next_count("c", "9223372036854775806"));
    assert!(s.can_evaluate_next_count("c", "no number"));
    s.register_sent_number("c", i64::MAX);
    assert!(!s.can_register_sent_number("c", 3));
    assert!(!s.can_evaluate_next_count("c", "3"));
    assert!(s.can_register_sent_number("d", 3));
}

#[test]
fn a_message_marked_before_is_never_first_again() {
    let mut s = ProxyState::new();
    assert!(s.try_mark_message_processed("c", "a"));
    assert!(s.try_mark_message_processed("c", "b"));
    assert!(!s.try_mark_message_processed("c", "a"));
    assert!(!s.try_mark_message_processed("c", "b"));
    // Marks are per channel.
    assert!(s.try_mark_message_processed("d", "a"));
}

#[test]
fn processed_keys_keep_channels_and_ids_apart() {
    let mut s = ProxyState::new();
    // The same characters split differently between channel and id.
    assert!(s.try_mark_message_processed("1", "23"));
    assert!(!s.is_message_already_processed("12", "3"));
    assert!(s.try_mark_message_processed("12", "3"));
    assert!(s.try_mark_message_processed("1#", "2"));
    assert!(!s.is_message_already_processed("1", "#2"));
}
