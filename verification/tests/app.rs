use mqtt_analyzer::app::{handle_input, on_notification, should_quit, App, KeyEvent};
use mqtt_analyzer::cli::Mode;
use mqtt_analyzer::engine::{apply_event, subscribe_all, Event, Registry};
use mqtt_analyzer::navigation::{BlockId, Navigation};
use mqtt_analyzer::notification::{Notification, Publish};
use mqtt_analyzer::retained::RetainedMap;
use mqtt_analyzer::style::{style, UiColor};
use mqtt_analyzer::tabs::TabsState;

fn publish(topic: &str, payload: &[u8]) -> Notification {
    Notification::Publish(Publish {
        topic: topic.to_string(),
        payload: payload.to_vec(),
    })
}

#[test]
fn ring_buffer_overwrites_oldest_beyond_capacity() {
    let mut app = App::new();
    for i in 0..150 {
        on_notification(&mut app, publish(&format!("t/{}", i), b"x"));
        assert!(app.recent_notifications().len() <= 100);
    }
    let items = app.recent_notifications();
    assert_eq!(items.len(), 100);
    for (k, item) in items.iter().enumerate() {
        match item {
            Notification::Publish(p) => assert_eq!(p.topic, format!("t/{}", 50 + k)),
            _ => panic!("expected a publish"),
        }
    }
}

#[test]
fn retained_map_upsert_keeps_the_last_payload_per_topic() {
    let mut retained = RetainedMap::new();
    retained.upsert(Publish {
        topic: "a/b".to_string(),
        payload: b"P1".to_vec(),
    });
    retained.upsert(Publish {
        topic: "other".to_string(),
        payload: b"Q".to_vec(),
    });
    retained.upsert(Publish {
        topic: "a/b".to_string(),
        payload: b"P2".to_vec(),
    });
    assert_eq!(retained.len(), 2);
    assert_eq!(retained.get("a/b").unwrap().payload, b"P2".to_vec());
    assert_eq!(retained.get("other").unwrap().payload, b"Q".to_vec());
    assert!(retained.get("absent").is_none());
}

// Policy choice, recorded here on purpose: unsubscribing from a topic does
// not prune that topic's entry from the retained-message map; the map keeps
// the last payload seen for every topic that ever published.
#[test]
fn retained_messages_survive_unsubscribe() {
    let mut app = App::new();
    let mut reg = Registry::new();
    subscribe_all(&mut reg, &vec!["a".to_string()]);
    on_notification(&mut app, publish("a", b"P"));
    let _ = apply_event(&mut reg, &Event::Unsubscribe("a".to_string()));
    assert_eq!(reg.len(), 0);
    assert_eq!(app.retained_messages.get("a").unwrap().payload, b"P".to_vec());
}

#[test]
fn on_notification_feeds_ring_and_retained() {
    let mut app = App::new();
    on_notification(&mut app, publish("a/b", b"P1"));
    on_notification(&mut app, Notification::Disconnected);
    on_notification(&mut app, publish("a/b", b"P2"));
    assert_eq!(app.recent_notifications().len(), 3);
    assert_eq!(app.retained_messages.len(), 1);
    assert_eq!(
        app.retained_messages.get("a/b").unwrap().payload,
        b"P2".to_vec()
    );
}

#[test]
fn navigation_floor_survives_repeated_escapes() {
    let mut app = App::new();
    let reg = Registry::new();
    assert_eq!(app.navigation.peek(), BlockId::TabNav);
    for _ in 0..5 {
        let cmd = handle_input(KeyEvent::Esc, &mut app, &reg);
        assert!(cmd.is_none());
        assert_eq!(app.navigation.peek(), BlockId::TabNav);
        assert_eq!(app.navigation.parent(), BlockId::SubscriptionsWindow);
    }
}

#[test]
fn navigation_escape_pops_one_level_from_a_deep_stack() {
    let mut app = App::new();
    let mut reg = Registry::new();
    let _ = reg.subscribe("a".to_string());
    // descend: tab bar -> subscribe input -> list -> first item
    let _ = handle_input(KeyEvent::Down, &mut app, &reg);
    assert_eq!(app.navigation.peek(), BlockId::SubscribeInput);
    let _ = handle_input(KeyEvent::Down, &mut app, &reg);
    assert_eq!(app.navigation.peek(), BlockId::SubscriptionsList);
    let _ = handle_input(KeyEvent::Char('\n'), &mut app, &reg);
    assert_eq!(app.navigation.peek(), BlockId::SubscriptionsListItem(0));
    let _ = handle_input(KeyEvent::Esc, &mut app, &reg);
    assert_eq!(app.navigation.peek(), BlockId::SubscriptionsList);
    let _ = handle_input(KeyEvent::Esc, &mut app, &reg);
    assert_eq!(app.navigation.peek(), BlockId::TabNav);
    let _ = handle_input(KeyEvent::Esc, &mut app, &reg);
    assert_eq!(app.navigation.peek(), BlockId::TabNav);
}

#[test]
fn list_index_clamps_after_deleting_under_the_cursor() {
    let mut app = App::new();
    let mut reg = Registry::new();
    subscribe_all(
        &mut reg,
        &vec!["a".to_string(), "b".to_string(), "c".to_string()],
    );
    let _ = handle_input(KeyEvent::Down, &mut app, &reg);
    let _ = handle_input(KeyEvent::Down, &mut app, &reg);
    let _ = handle_input(KeyEvent::Char('\n'), &mut app, &reg);
    let _ = handle_input(KeyEvent::Down, &mut app, &reg);
    let _ = handle_input(KeyEvent::Down, &mut app, &reg);
    assert_eq!(app.navigation.peek(), BlockId::SubscriptionsListItem(2));

    // delete the topic under the cursor; the worker applies the command
    let cmd = handle_input(KeyEvent::Char('d'), &mut app, &reg);
    assert_eq!(cmd, Some(Event::Unsubscribe("c".to_string())));
    let _ = apply_event(&mut reg, &cmd.unwrap());
    assert_eq!(reg.len(), 2);
    assert_eq!(app.navigation.peek(), BlockId::SubscriptionsListItem(2));

    // the next movement clamps the cursor into the shrunken list
    let _ = handle_input(KeyEvent::Down, &mut app, &reg);
    match app.navigation.peek() {
        BlockId::SubscriptionsListItem(i) => assert!(i <= 1),
        other => panic!("unexpected focus: {:?}", other),
    }
}

#[test]
fn deleting_with_a_stale_cursor_emits_nothing() {
    let mut app = App::new();
    let mut reg = Registry::new();
    subscribe_all(
        &mut reg,
        &vec!["a".to_string(), "b".to_string(), "c".to_string()],
    );
    let _ = handle_input(KeyEvent::Down, &mut app, &reg);
    let _ = handle_input(KeyEvent::Down, &mut app, &reg);
    let _ = handle_input(KeyEvent::Char('\n'), &mut app, &reg);
    let _ = handle_input(KeyEvent::Down, &mut app, &reg);
    let _ = handle_input(KeyEvent::Down, &mut app, &reg);
    let cmd = handle_input(KeyEvent::Char('d'), &mut app, &reg);
    let _ = apply_event(&mut reg, &cmd.unwrap());
    assert_eq!(reg.len(), 2);

    // the cursor still reads 2, one past the shrunken registry's end:
    // deleting now points at nothing and must not unsubscribe anything
    assert_eq!(app.navigation.peek(), BlockId::SubscriptionsListItem(2));
    assert!(handle_input(KeyEvent::Char('d'), &mut app, &reg).is_none());
    assert!(handle_input(KeyEvent::Char('x'), &mut app, &reg).is_none());
    assert!(handle_input(KeyEvent::Backspace, &mut app, &reg).is_none());
    assert!(handle_input(KeyEvent::Delete, &mut app, &reg).is_none());
    assert_eq!(reg.len(), 2);
    assert_eq!(app.navigation.peek(), BlockId::SubscriptionsListItem(2));
}

#[test]
fn deleting_with_backspace_and_x_also_emits_unsubscribe() {
    let mut app = App::new();
    let mut reg = Registry::new();
    subscribe_all(&mut reg, &vec!["a".to_string(), "b".to_string()]);
    let _ = handle_input(KeyEvent::Down, &mut app, &reg);
    let _ = handle_input(KeyEvent::Down, &mut app, &reg);
    let _ = handle_input(KeyEvent::Char('\n'), &mut app, &reg);
    let cmd = handle_input(KeyEvent::Backspace, &mut app, &reg);
    assert_eq!(cmd, Some(Event::Unsubscribe("a".to_string())));
    let _ = handle_input(KeyEvent::Down, &mut app, &reg);
    let cmd = handle_input(KeyEvent::Char('x'), &mut app, &reg);
    assert_eq!(cmd, Some(Event::Unsubscribe("b".to_string())));
}

#[test]
fn end_to_end_typing_a_topic_subscribes_it() {
    // initial topics
    let mut reg = Registry::new();
    subscribe_all(&mut reg, &vec!["x/1".to_string()]);

    let mut app = App::new();
    // descend into the subscribe input and type "y/2", then enter
    let _ = handle_input(KeyEvent::Down, &mut app, &reg);
    assert_eq!(app.navigation.peek(), BlockId::SubscribeInput);
    assert!(handle_input(KeyEvent::Char('y'), &mut app, &reg).is_none());
    assert!(handle_input(KeyEvent::Char('/'), &mut app, &reg).is_none());
    assert!(handle_input(KeyEvent::Char('2'), &mut app, &reg).is_none());
    let cmd = handle_input(KeyEvent::Char('\n'), &mut app, &reg);
    assert_eq!(cmd, Some(Event::Subscribe("y/2".to_string())));

    // one worker cycle applies the command
    let issued = apply_event(&mut reg, &cmd.unwrap());
    assert!(issued);
    assert_eq!(reg.len(), 2);
    assert!(reg.contains("x/1"));
    assert!(reg.contains("y/2"));
}

#[test]
fn subscribe_input_editing_backspace_and_escape() {
    let mut app = App::new();
    let reg = Registry::new();
    let _ = handle_input(KeyEvent::Down, &mut app, &reg);
    let _ = handle_input(KeyEvent::Char('a'), &mut app, &reg);
    let _ = handle_input(KeyEvent::Char('b'), &mut app, &reg);
    let _ = handle_input(KeyEvent::Backspace, &mut app, &reg);
    let cmd = handle_input(KeyEvent::Char('\n'), &mut app, &reg);
    assert_eq!(cmd, Some(Event::Subscribe("a".to_string())));
    // the buffer was drained: a second enter sends nothing
    let cmd = handle_input(KeyEvent::Char('\n'), &mut app, &reg);
    assert!(cmd.is_none());
}

#[test]
fn empty_registry_closes_the_item_view() {
    let mut app = App::new();
    let reg = Registry::new();
    let _ = handle_input(KeyEvent::Down, &mut app, &reg);
    let _ = handle_input(KeyEvent::Down, &mut app, &reg);
    // enter does not drill into an empty list
    let _ = handle_input(KeyEvent::Char('\n'), &mut app, &reg);
    assert_eq!(app.navigation.peek(), BlockId::SubscriptionsList);
}

#[test]
fn tabs_wrap_in_both_directions() {
    let mut tabs = TabsState::default();
    assert_eq!(tabs.index, 0);
    tabs.next();
    tabs.next();
    tabs.next();
    assert_eq!(tabs.index, 3);
    tabs.next();
    assert_eq!(tabs.index, 0);
    tabs.previous();
    assert_eq!(tabs.index, 3);
    tabs.previous();
    assert_eq!(tabs.index, 2);
}

#[test]
fn tab_keys_move_the_selector() {
    let mut app = App::new();
    let reg = Registry::new();
    let _ = handle_input(KeyEvent::Right, &mut app, &reg);
    assert_eq!(app.tabs.index, 1);
    let _ = handle_input(KeyEvent::Left, &mut app, &reg);
    assert_eq!(app.tabs.index, 0);
    let _ = handle_input(KeyEvent::Left, &mut app, &reg);
    assert_eq!(app.tabs.index, 3);
}

#[test]
fn startup_mode_selects_the_tab() {
    let mut app = App::new();
    app.set_mode(&Mode::Retained);
    assert_eq!(app.tabs.index, 2);
    app.set_mode(&Mode::Statistics);
    assert_eq!(app.tabs.index, 3);
}

#[test]
fn mode_from_str_parses_selectors() {
    assert!(matches!(Mode::from_str("subs"), Ok(Mode::Subscriptions)));
    assert!(matches!(Mode::from_str("stream"), Ok(Mode::Stream)));
    assert!(matches!(Mode::from_str("retained"), Ok(Mode::Retained)));
    assert!(matches!(Mode::from_str("statistics"), Ok(Mode::Statistics)));
    assert!(Mode::from_str("other").is_err());
    assert!(Mode::from_str("SUBS").is_err());
}

#[test]
fn quit_key_is_ctrl_c() {
    assert!(should_quit(&KeyEvent::Ctrl('c')));
    assert!(!should_quit(&KeyEvent::Ctrl('d')));
    assert!(!should_quit(&KeyEvent::Char('c')));
    assert!(!should_quit(&KeyEvent::Esc));
}

#[test]
fn style_highlights_the_active_panel() {
    assert_eq!(style(true).fg, UiColor::Green);
    assert_eq!(style(false).fg, UiColor::LightMagenta);
}

#[test]
fn navigation_primitives() {
    let mut nav = Navigation::default();
    assert_eq!(nav.peek(), BlockId::TabNav);
    assert_eq!(nav.parent(), BlockId::SubscriptionsWindow);
    nav.push(BlockId::SubscriptionsListItem(4));
    assert_eq!(nav.peek(), BlockId::SubscriptionsListItem(4));
    nav.modify_top(BlockId::SubscribeInput);
    assert_eq!(nav.peek(), BlockId::SubscribeInput);
    nav.pop();
    assert_eq!(nav.peek(), BlockId::TabNav);
}
