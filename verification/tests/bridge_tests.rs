use std::collections::HashMap;

use spc_mqtt::bridge::{
    alert_sensor_id, default_device_class, ensure_zone_discovery, make_ctx, parse_command,
    poll_update, resolve_command, Command, Discovered, Publish,
};
use spc_mqtt::config::Config;
use spc_mqtt::model::{Area, AreaAction, PanelState, SystemAlert, Zone, ZoneInput, ZoneState};
use spc_mqtt::parser::{ParsedAlert, ParsedArea, ParsedZone};

fn config() -> Config {
    let mut classes = HashMap::new();
    classes.insert(2u32, "window".to_string());
    Config {
        spc_url: "https://panel".into(),
        poll_interval_secs: 5,
        mqtt_host: "broker".into(),
        mqtt_port: 1883,
        mqtt_creds: None,
        topic_prefix: "spc".into(),
        discovery_prefix: "homeassistant".into(),
        zone_device_class: classes,
    }
}

#[test]
fn commands_from_topics() {
    match parse_command("spc", "spc/area/3/set", "Fullset") {
        Some(Command::Area { area_id, label }) => {
            assert_eq!(area_id, 3);
            assert_eq!(label, "Fullset");
        }
        other => panic!("{other:?}"),
    }
    match parse_command("spc", "spc/zone/12/action", "inhibit") {
        Some(Command::Zone { zone_id, action }) => {
            assert_eq!(zone_id, 12);
            assert_eq!(action, "inhibit");
        }
        other => panic!("{other:?}"),
    }
    match parse_command("spc", "spc/alert/mains_fault/action", "isolate") {
        Some(Command::Alert { sensor_id, action }) => {
            assert_eq!(sensor_id, "mains_fault");
            assert_eq!(action, "isolate");
        }
        other => panic!("{other:?}"),
    }
    assert!(parse_command("spc", "spc/area/x/set", "Fullset").is_none());
    assert!(parse_command("spc", "spc/area/3/state", "Fullset").is_none());
    assert!(parse_command("spc", "other/area/3/set", "Fullset").is_none());
    assert!(parse_command("spc", "spc/zone/1/set", "inhibit").is_none());
}

#[test]
fn naming_rules() {
    assert_eq!(default_device_class("Entry/Exit"), "door");
    assert_eq!(default_device_class("Exit"), "door");
    assert_eq!(default_device_class("Fire"), "smoke");
    assert_eq!(default_device_class("Alarm"), "motion");
    assert_eq!(default_device_class("Technical"), "opening");
    assert_eq!(alert_sensor_id("Controller Mains Fault"), "mains_fault");
    assert_eq!(alert_sensor_id("Aux. Power"), "aux_power");
}

fn action(label: &str, form: &str) -> AreaAction {
    AreaAction { label: label.to_string(), form_name: form.to_string() }
}

fn panel() -> PanelState {
    let mut p = PanelState::new();
    p.name = "SPC4300".into();
    p.serial = "643069802".into();
    let mut a1 = Area::new(1);
    a1.state = "Unset".into();
    a1.actions = vec![action("Fullset", "fullset_area1"), action("Night", "partset_a_area1")];
    p.areas.insert(1, a1);
    let mut a0 = Area::new(0);
    a0.state = "Fullset".into();
    a0.actions = vec![action("Partset", "partset_b_all_areas")];
    p.areas.insert(0, a0);
    let mut a2 = Area::new(2);
    a2.state = "Fullset".into();
    p.areas.insert(2, a2);
    p.alerts = vec![SystemAlert { name: "Mains Fault".into(), ok: false, button_index: 4 }];
    p
}

fn area_cmd(id: u32, label: &str) -> Command {
    Command::Area { area_id: id, label: label.into() }
}

#[test]
fn command_resolution() {
    let p = panel();
    assert_eq!(resolve_command(&p, &area_cmd(1, "Night")), Some(("partset_a_area1".to_string(), "system_summary")));
    // already in the requested state
    assert_eq!(resolve_command(&p, &area_cmd(1, "Unset")), None);
    // Unset derived from the first action's form name
    assert_eq!(resolve_command(&p, &area_cmd(0, "Unset")), Some(("unset_all_areas".to_string(), "system_summary")));
    // Unset without actions
    assert_eq!(resolve_command(&p, &area_cmd(2, "Unset")), Some(("unset_area2".to_string(), "system_summary")));
    assert_eq!(resolve_command(&p, &area_cmd(1, "Bogus")), None);
    assert_eq!(resolve_command(&p, &area_cmd(9, "Unset")), None);
    let z = Command::Zone { zone_id: 5, action: "inhibit".into() };
    assert_eq!(resolve_command(&p, &z), Some(("inhibit5".to_string(), "status_zones")));
    let a = Command::Alert { sensor_id: "mains_fault".into(), action: "isolate".into() };
    assert_eq!(resolve_command(&p, &a), Some(("isolate4".to_string(), "status_sysalert")));
    let a = Command::Alert { sensor_id: "nothing".into(), action: "isolate".into() };
    assert_eq!(resolve_command(&p, &a), None);
}

fn topics(m: &[Publish]) -> Vec<&str> {
    m.iter().map(|p| p.topic.as_str()).collect()
}

#[test]
fn poll_publishes_discovery_once() {
    let cfg = config();
    let mut state = PanelState::new();
    state.name = "SPC4300".into();
    state.serial = "643069802".into();
    let mut disc = Discovered::new();
    let areas = vec![ParsedArea {
        id: 1,
        name: "Ground".into(),
        state: "Unset".into(),
        actions: vec![action("Fullset", "fullset_area1")],
    }];
    let zones = vec![
        ParsedZone {
            id: 1,
            name: "Door".into(),
            area_id: 1,
            zone_type: "Entry/Exit".into(),
            input: ZoneInput::Open,
            status: "Normal".into(),
        },
        ParsedZone {
            id: 2,
            name: "Window".into(),
            area_id: 1,
            zone_type: "Technical".into(),
            input: ZoneInput::Closed,
            status: "Normal".into(),
        },
    ];
    let alerts = vec![ParsedAlert { name: "Mains Fault".into(), ok: true, button_index: 0 }];
    let msgs = poll_update(&cfg, &mut state, &mut disc, &areas, &zones, &alerts);
    assert_eq!(
        topics(&msgs),
        vec![
            "homeassistant/select/spc_643069802/area_1/config",
            "spc/area/1/state",
            "homeassistant/binary_sensor/spc_643069802/zone_1/config",
            "homeassistant/button/spc_643069802/zone_1_inhibit/config",
            "homeassistant/button/spc_643069802/zone_1_isolate/config",
            "spc/zone/1/state",
            "spc/zone/1/attributes",
            "homeassistant/binary_sensor/spc_643069802/zone_2/config",
            "homeassistant/button/spc_643069802/zone_2_inhibit/config",
            "homeassistant/button/spc_643069802/zone_2_isolate/config",
            "spc/zone/2/state",
            "spc/zone/2/attributes",
            "homeassistant/binary_sensor/spc_643069802/mains_fault/config",
            "spc/system/mains_fault",
            "homeassistant/button/spc_643069802/mains_fault_inhibit/config",
            "homeassistant/button/spc_643069802/mains_fault_isolate/config",
        ]
    );
    assert_eq!(msgs[1].payload, "Unset");
    assert_eq!(msgs[5].payload, "ON");
    assert_eq!(msgs[10].payload, "OFF");
    assert_eq!(msgs[13].payload, "OFF");
    let attrs: serde_json::Value = serde_json::from_str(&msgs[6].payload).unwrap();
    assert_eq!(attrs["zone_name"], "Door");
    assert_eq!(attrs["zone_type"], "Entry/Exit");
    assert_eq!(attrs["area_id"], 1);
    assert_eq!(attrs["input"], "Open");
    assert_eq!(attrs["status"], "Normal");
    assert_eq!(attrs["state_detail"], "open");
    let z1 = &state.zones[&1];
    assert_eq!(z1.device_class, "door");
    assert_eq!(z1.state, ZoneState::Open);
    assert_eq!(state.zones[&2].device_class, "window");
    assert_eq!(state.areas[&1].all_options, vec!["Unset".to_string(), "Fullset".to_string()]);
    assert_eq!(state.alerts.len(), 1);

    // the same pages again: only states and attributes
    let msgs = poll_update(&cfg, &mut state, &mut disc, &areas, &zones, &alerts);
    assert_eq!(
        topics(&msgs),
        vec![
            "spc/area/1/state",
            "spc/zone/1/state",
            "spc/zone/1/attributes",
            "spc/zone/2/state",
            "spc/zone/2/attributes",
        ]
    );

    // a new option makes the area announce itself again; an empty name keeps the old one
    let areas2 = vec![ParsedArea {
        id: 1,
        name: String::new(),
        state: "Fullset".into(),
        actions: vec![action("Night", "partset_a_area1")],
    }];
    let msgs = poll_update(&cfg, &mut state, &mut disc, &areas2, &[], &alerts);
    assert_eq!(topics(&msgs), vec!["homeassistant/select/spc_643069802/area_1/config", "spc/area/1/state"]);
    assert_eq!(state.areas[&1].name, "Ground");
    assert_eq!(
        state.areas[&1].all_options,
        vec!["Unset".to_string(), "Fullset".to_string(), "Night".to_string()]
    );
}

#[test]
fn zone_discovery_once_per_session() {
    let cfg = config();
    let ctx = make_ctx("SPC4300", "1", &cfg);
    let mut disc = Discovered::new();
    let mut msgs = Vec::new();
    let z = Zone::new(9);
    ensure_zone_discovery(&ctx, &mut disc, &mut msgs, &z);
    assert_eq!(msgs.len(), 3);
    ensure_zone_discovery(&ctx, &mut disc, &mut msgs, &z);
    assert_eq!(msgs.len(), 3);
}

#[test]
fn command_topics_from_discovery_read_back() {
    // law: the command topics announced in discovery are parsed back as commands
    for id in [0u32, 7, 4294967295] {
        let t = format!("spc/area/{id}/set");
        assert!(matches!(parse_command("spc", &t, "X"), Some(Command::Area { area_id, .. }) if area_id == id));
        let t = format!("spc/zone/{id}/action");
        assert!(matches!(parse_command("spc", &t, "inhibit"), Some(Command::Zone { zone_id, .. }) if zone_id == id));
    }
}

#[test]
fn device_class_once_set_stays_over_polls() {
    let cfg = config();
    let mut state = PanelState::new();
    state.name = "SPC4300".into();
    state.serial = "1".into();
    let mut z = Zone::new(2);
    z.device_class = "door".into();
    state.zones.insert(2, z);
    let mut disc = Discovered::new();
    let pz = |zone_type: &str| ParsedZone {
        id: 2,
        name: "Back".into(),
        area_id: 1,
        zone_type: zone_type.into(),
        input: ZoneInput::Closed,
        status: "Normal".into(),
    };
    // the configuration names "window" for zone 2, and the types suggest other classes
    poll_update(&cfg, &mut state, &mut disc, &[], &[pz("Fire")], &[]);
    assert_eq!(state.zones[&2].device_class, "door");
    poll_update(&cfg, &mut state, &mut disc, &[], &[pz("Alarm")], &[]);
    assert_eq!(state.zones[&2].device_class, "door");
    // a zone first seen without a class takes one and keeps it
    let pz3 = |zone_type: &str| ParsedZone {
        id: 3,
        name: "Hall".into(),
        area_id: 1,
        zone_type: zone_type.into(),
        input: ZoneInput::Closed,
        status: "Normal".into(),
    };
    poll_update(&cfg, &mut state, &mut disc, &[], &[pz3("Fire")], &[]);
    assert_eq!(state.zones[&3].device_class, "smoke");
    poll_update(&cfg, &mut state, &mut disc, &[], &[pz3("Entry/Exit")], &[]);
    assert_eq!(state.zones[&3].device_class, "smoke");
}
