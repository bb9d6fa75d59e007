use fast_discord_tui::models::{QueuedItem, ReactionDelayMode};
use fast_discord_tui::proxy::queue::{reaction_delay_ms, sent_number_of, SentMessage};
use fast_discord_tui::proxy::state::ProxyState;
use fast_discord_tui::proxy::trigger_rules::{
    evaluate_and_trigger_queue, IncomingMessage, TriggerAction,
};

fn message(id: &str, author: &str, content: &str) -> IncomingMessage {
    IncomingMessage {
        id: id.to_string(),
        author_id: author.to_string(),
        author_username: String::new(),
        author_is_bot: false,
        content: content.to_string(),
    }
}

fn item(text: &str) -> QueuedItem {
    QueuedItem { content: text.to_string(), number: 0, was_empty: false }
}

#[test]
fn empty_channel_is_ignored() {
    let mut s = ProxyState::new();
    let m = message("1", "u", "5");
    assert!(matches!(evaluate_and_trigger_queue(Some(&m), "", &mut s), TriggerAction::Ignore));
    assert!(matches!(evaluate_and_trigger_queue(None, "", &mut s), TriggerAction::Ignore));
}

#[test]
fn missing_message_asks_for_a_fetch() {
    let mut s = ProxyState::new();
    assert!(matches!(evaluate_and_trigger_queue(None, "c", &mut s), TriggerAction::FetchLatest));
}

#[test]
fn counting_message_is_answered_once() {
    let mut s = ProxyState::new();
    let m = message("m1", "u", "1243 gg");
    match evaluate_and_trigger_queue(Some(&m), "c", &mut s) {
        TriggerAction::Send { item, remaining } => {
            assert_eq!(item.content, "1244 ggs!");
            assert_eq!(item.number, 0);
            assert!(!item.was_empty);
            assert!(remaining.is_empty());
        }
        _ => panic!("expected a reply"),
    }
    assert!(s.is_message_already_processed("c", "m1"));
    assert!(matches!(evaluate_and_trigger_queue(Some(&m), "c", &mut s), TriggerAction::Ignore));
}

#[test]
fn own_and_bot_messages_are_ignored() {
    let mut s = ProxyState::new();
    s.register_self_info("me", "myname");
    let own = message("m1", "me", "5");
    assert!(matches!(evaluate_and_trigger_queue(Some(&own), "c", &mut s), TriggerAction::Ignore));
    assert!(!s.is_message_already_processed("c", "m1"));
    let mut bot = message("m2", "bot", "5");
    bot.author_is_bot = true;
    assert!(matches!(evaluate_and_trigger_queue(Some(&bot), "c", &mut s), TriggerAction::Ignore));
    let mut by_name = message("m3", "other-id", "5");
    by_name.author_username = "myname".to_string();
    assert!(matches!(evaluate_and_trigger_queue(Some(&by_name), "c", &mut s), TriggerAction::Ignore));
}

#[test]
fn queue_is_the_fallback() {
    let mut s = ProxyState::new();
    s.enqueue_item("c", item("first"));
    s.enqueue_item("c", item("second"));
    let m = message("m1", "u", "hello there");
    match evaluate_and_trigger_queue(Some(&m), "c", &mut s) {
        TriggerAction::Send { item, remaining } => {
            assert_eq!(item.content, "first");
            assert_eq!(remaining.len(), 1);
            assert_eq!(remaining[0].content, "second");
        }
        _ => panic!("expected the queued item"),
    }
    let m2 = message("m2", "u", "again");
    assert!(matches!(evaluate_and_trigger_queue(Some(&m2), "c", &mut s), TriggerAction::Send { .. }));
    let m3 = message("m3", "u", "and again");
    assert!(matches!(evaluate_and_trigger_queue(Some(&m3), "c", &mut s), TriggerAction::Ignore));
    assert!(s.is_message_already_processed("c", "m3"));
}

#[test]
fn sent_number_prefers_item_number() {
    let mut i = item("77 text");
    assert_eq!(sent_number_of(&i), Some(77));
    i.number = 5;
    assert_eq!(sent_number_of(&i), Some(5));
    assert_eq!(sent_number_of(&item("text")), None);
}

#[test]
fn delays_stay_in_their_ranges() {
    for _ in 0..50 {
        let n = reaction_delay_ms(ReactionDelayMode::Normal);
        assert!((200..=300).contains(&n));
        assert!(reaction_delay_ms(ReactionDelayMode::Fast) <= 200);
        assert!(reaction_delay_ms(ReactionDelayMode::Random) <= 300);
        assert_eq!(reaction_delay_ms(ReactionDelayMode::Instant), 0);
    }
}

#[test]
fn finished_reaction_updates_state() {
    let mut s = ProxyState::new();
    s.set_token_rotation_config(vec!["a".to_string(), "b".to_string()], 2);
    let answer = SentMessage {
        id: Some("sent1".to_string()),
        author_id: Some("me".to_string()),
        author_username: "myname".to_string(),
    };
    assert!(s.can_finish_reaction("c", Some(100), true));
    assert!(s.finish_reaction("c", Some(100), Some(answer)).is_none());
    assert!(s.is_message_already_processed("c", "sent1"));
    assert!(s.is_self_author("me", ""));
    assert!(s.is_self_author("", "myname"));
    assert_eq!(s.last_number("c"), Some(100));
    assert_eq!(s.get_current_token("f"), "b");
}

#[test]
fn failed_reaction_clears_the_queue() {
    let mut s = ProxyState::new();
    s.enqueue_item("c", item("x"));
    let cleared = s.finish_reaction("c", Some(3), None);
    assert_eq!(cleared.map(|q| q.len()), Some(0));
    assert!(s.pop_next_item("c").is_none());
    assert_eq!(s.last_number("c"), None);
}

#[test]
fn delays_are_drawn_at_random() {
    let draws: Vec<u64> = (0..100).map(|_| reaction_delay_ms(ReactionDelayMode::Normal)).collect();
    assert!(draws.iter().any(|d| *d != draws[0]));
    let fast: Vec<u64> = (0..100).map(|_| reaction_delay_ms(ReactionDelayMode::Fast)).collect();
    assert!(fast.iter().any(|d| *d > 0));
}
