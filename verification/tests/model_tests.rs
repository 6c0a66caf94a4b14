use spc_mqtt::model::{Area, AreaAction, PanelState, Zone, ZoneInput, ZoneState};

#[test]
fn zone_state_on_states() {
    assert!(ZoneState::Open.is_on());
    assert!(ZoneState::Alarm.is_on());
    assert!(ZoneState::Tamper.is_on());
    assert!(ZoneState::Trouble.is_on());
    assert!(!ZoneState::Closed.is_on());
    assert!(!ZoneState::Unknown.is_on());
    assert!(!ZoneState::Inhibited.is_on());
    assert!(!ZoneState::Isolated.is_on());
}

#[test]
fn display_texts() {
    assert_eq!(ZoneInput::Unknown.display(), "unknown");
    assert_eq!(ZoneInput::Open.display(), "Open");
    assert_eq!(ZoneInput::Closed.display(), "Closed");
    assert_eq!(ZoneState::Inhibited.display(), "inhibited");
    assert_eq!(ZoneState::Alarm.display(), "alarm");
}

#[test]
fn new_zone_and_area() {
    let z = Zone::new(3);
    assert_eq!(z.id, 3);
    assert_eq!(z.name, "");
    assert_eq!(z.input, ZoneInput::Unknown);
    assert_eq!(z.state, ZoneState::Unknown);
    let a = Area::new(2);
    assert_eq!(a.id, 2);
    assert_eq!(a.state, "Unset");
    assert!(a.actions.is_empty());
    assert!(a.all_options.is_empty());
    let p = PanelState::new();
    assert!(p.zones.is_empty() && p.areas.is_empty() && p.alerts.is_empty());
}

fn action(label: &str, form: &str) -> AreaAction {
    AreaAction { label: label.to_string(), form_name: form.to_string() }
}

#[test]
fn update_options_accumulates_without_duplicates() {
    let mut a = Area::new(1);
    a.actions = vec![action("Fullset", "fullset_area1"), action("Unset", "unset_area1")];
    a.update_options();
    assert_eq!(a.select_options(), &["Unset".to_string(), "Fullset".to_string()]);
    a.state = "Fullset".to_string();
    a.actions = vec![action("Unset", "unset_area1"), action("Ground Floor", "partset_a_area1")];
    a.update_options();
    assert_eq!(
        a.select_options(),
        &["Unset".to_string(), "Fullset".to_string(), "Ground Floor".to_string()]
    );
}

#[test]
fn update_options_appends_in_first_seen_order_and_settles() {
    let mut a = Area::new(1);
    a.all_options = vec!["A".to_string()];
    a.state = "B".to_string();
    a.actions = vec![action("C", "c"), action("B", "b"), action("A", "a"), action("D", "d"), action("C", "c2")];
    a.update_options();
    let expected: Vec<String> = ["A", "B", "C", "D"].iter().map(|s| s.to_string()).collect();
    assert_eq!(a.all_options, expected);
    a.update_options();
    assert_eq!(a.all_options, expected);
}
