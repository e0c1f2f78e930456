use mqtt_analyzer::engine::{apply_event, subscribe_all, Event, Registry};

#[test]
fn subscribe_idempotent_keeps_one_entry_and_one_request() {
    let mut reg = Registry::new();
    let first_issued = reg.subscribe("sensors/+".to_string());
    let second_issued = reg.subscribe("sensors/+".to_string());
    assert!(first_issued);
    assert!(!second_issued);
    assert_eq!(reg.len(), 1);
    assert!(reg.contains("sensors/+"));
}

#[test]
fn unsubscribe_absent_topic_is_a_noop() {
    let mut reg = Registry::new();
    let _ = reg.subscribe("a".to_string());
    let issued = reg.unsubscribe("missing");
    assert!(!issued);
    assert_eq!(reg.len(), 1);
    assert!(reg.contains("a"));
}

#[test]
fn unsubscribe_present_topic_issues_request() {
    let mut reg = Registry::new();
    let _ = reg.subscribe("a".to_string());
    let issued = reg.unsubscribe("a");
    assert!(issued);
    assert_eq!(reg.len(), 0);
    assert!(!reg.contains("a"));
}

#[test]
fn command_ordering_leaves_exactly_the_second_topic() {
    let mut reg = Registry::new();
    let commands = vec![
        Event::Subscribe("alpha".to_string()),
        Event::Subscribe("beta".to_string()),
        Event::Unsubscribe("alpha".to_string()),
    ];
    for command in &commands {
        let _ = apply_event(&mut reg, command);
    }
    assert_eq!(reg.len(), 1);
    assert_eq!(reg.get(0).as_str(), "beta");
}

#[test]
fn command_ordering_holds_whatever_the_sort_order() {
    let mut reg = Registry::new();
    for command in &[
        Event::Subscribe("zeta".to_string()),
        Event::Subscribe("beta".to_string()),
        Event::Unsubscribe("zeta".to_string()),
    ] {
        let _ = apply_event(&mut reg, command);
    }
    assert_eq!(reg.len(), 1);
    assert_eq!(reg.get(0).as_str(), "beta");
}

#[test]
fn subscribe_all_applies_in_order_and_dedups() {
    let mut reg = Registry::new();
    let topics = vec![
        "x/1".to_string(),
        "a".to_string(),
        "a".to_string(),
        "m".to_string(),
    ];
    subscribe_all(&mut reg, &topics);
    assert_eq!(reg.len(), 3);
    // iteration order is sorted, hence deterministic
    assert_eq!(reg.get(0).as_str(), "a");
    assert_eq!(reg.get(1).as_str(), "m");
    assert_eq!(reg.get(2).as_str(), "x/1");
}

#[test]
fn registry_iterates_in_sorted_order() {
    let mut reg = Registry::new();
    let _ = reg.subscribe("b/2".to_string());
    let _ = reg.subscribe("a/10".to_string());
    let _ = reg.subscribe("a/2".to_string());
    assert_eq!(reg.get(0).as_str(), "a/10");
    assert_eq!(reg.get(1).as_str(), "a/2");
    assert_eq!(reg.get(2).as_str(), "b/2");
}
