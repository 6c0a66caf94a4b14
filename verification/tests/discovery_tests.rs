use serde_json::Value;
use spc_mqtt::discovery::{
    alert_button_discovery_payload, alert_button_discovery_topic, area_discovery_payload,
    area_discovery_topic, capitalize, event_sensor_discovery_payload, event_sensor_discovery_topic,
    system_sensor_discovery_payload, system_sensor_discovery_topic, zone_button_discovery_payload,
    zone_button_discovery_topic, zone_discovery_payload, zone_discovery_topic, Ctx,
};
use spc_mqtt::bridge::{parse_command, Command};
use spc_mqtt::json::{JsonLeaf, JsonObject, JsonValue};
use spc_mqtt::model::{Area, Zone};

fn ctx() -> Ctx<'static> {
    Ctx { name: "SPC4300", serial: "643069802", topic_prefix: "spc", discovery_prefix: "homeassistant" }
}

fn parse(s: &str) -> Value {
    serde_json::from_str(s).unwrap()
}

fn check_device_and_availability(v: &Value) {
    assert_eq!(v["device"]["identifiers"][0], "spc_643069802");
    assert_eq!(v["device"]["name"], "SPC4300");
    assert_eq!(v["device"]["manufacturer"], "Vanderbilt");
    assert_eq!(v["device"]["model"], "SPC4300");
    assert_eq!(v["device"]["serial_number"], "643069802");
    assert_eq!(v["availability_topic"], "spc/status");
    assert_eq!(v["payload_available"], "online");
    assert_eq!(v["payload_not_available"], "offline");
}

#[test]
fn topics() {
    let c = ctx();
    let mut z = Zone::new(7);
    z.name = "Door".into();
    let a = Area::new(2);
    assert_eq!(zone_discovery_topic(&z, &c), "homeassistant/binary_sensor/spc_643069802/zone_7/config");
    assert_eq!(area_discovery_topic(&a, &c), "homeassistant/select/spc_643069802/area_2/config");
    assert_eq!(
        system_sensor_discovery_topic("mains_fault", &c),
        "homeassistant/binary_sensor/spc_643069802/mains_fault/config"
    );
    assert_eq!(event_sensor_discovery_topic(&c), "homeassistant/sensor/spc_643069802/last_event/config");
    assert_eq!(
        zone_button_discovery_topic(&z, "inhibit", &c),
        "homeassistant/button/spc_643069802/zone_7_inhibit/config"
    );
    assert_eq!(
        alert_button_discovery_topic("mains_fault", "isolate", &c),
        "homeassistant/button/spc_643069802/mains_fault_isolate/config"
    );
}

#[test]
fn zone_payload() {
    let c = ctx();
    let mut z = Zone::new(7);
    let v = parse(&zone_discovery_payload(&z, &c));
    assert_eq!(v["name"], "Zone 7");
    assert_eq!(v["unique_id"], "spc_643069802_zone_7");
    assert_eq!(v["state_topic"], "spc/zone/7/state");
    assert_eq!(v["payload_on"], "ON");
    assert_eq!(v["payload_off"], "OFF");
    assert_eq!(v["json_attributes_topic"], "spc/zone/7/attributes");
    assert!(v.get("device_class").is_none());
    check_device_and_availability(&v);
    z.name = "Front door".into();
    z.device_class = "door".into();
    let v = parse(&zone_discovery_payload(&z, &c));
    assert_eq!(v["name"], "Front door");
    assert_eq!(v["device_class"], "door");
    assert_eq!(v.as_object().unwrap().len(), 11);
}

#[test]
fn area_payload() {
    let c = ctx();
    let mut a = Area::new(1);
    a.all_options = vec!["Unset".into(), "Fullset".into()];
    let v = parse(&area_discovery_payload(&a, &c));
    assert_eq!(v["name"], "Area 1");
    assert_eq!(v["unique_id"], "spc_643069802_area_1");
    assert_eq!(v["state_topic"], "spc/area/1/state");
    assert_eq!(v["command_topic"], "spc/area/1/set");
    assert_eq!(v["options"], parse(r#"["Unset","Fullset"]"#));
    assert_eq!(v["icon"], "mdi:shield-home");
    check_device_and_availability(&v);
}

#[test]
fn sensor_payloads() {
    let c = ctx();
    let v = parse(&system_sensor_discovery_payload("mains_fault", "Mains Fault", "spc/system/mains_fault", &c));
    assert_eq!(v["name"], "Mains Fault");
    assert_eq!(v["unique_id"], "spc_643069802_mains_fault");
    assert_eq!(v["state_topic"], "spc/system/mains_fault");
    assert_eq!(v["device_class"], "problem");
    assert_eq!(v["entity_category"], "diagnostic");
    check_device_and_availability(&v);
    let v = parse(&event_sensor_discovery_payload(&c));
    assert_eq!(v["name"], "Last Event");
    assert_eq!(v["unique_id"], "spc_643069802_last_event");
    assert_eq!(v["state_topic"], "spc/event");
    assert_eq!(v["value_template"], "{{ value_json.text[:255] }}");
    assert_eq!(v["json_attributes_topic"], "spc/event");
    assert_eq!(v["icon"], "mdi:shield-alert");
    check_device_and_availability(&v);
}

#[test]
fn button_payloads() {
    let c = ctx();
    let z = Zone::new(4);
    let v = parse(&zone_button_discovery_payload(&z, "inhibit", &c));
    assert_eq!(v["name"], "Zone 4 Inhibit");
    assert_eq!(v["unique_id"], "spc_643069802_zone_4_inhibit");
    assert_eq!(v["command_topic"], "spc/zone/4/action");
    assert_eq!(v["payload_press"], "inhibit");
    assert_eq!(v["entity_category"], "config");
    check_device_and_availability(&v);
    let v = parse(&alert_button_discovery_payload("mains_fault", "Mains Fault", "isolate", &c));
    assert_eq!(v["name"], "Mains Fault Isolate");
    assert_eq!(v["unique_id"], "spc_643069802_mains_fault_isolate");
    assert_eq!(v["command_topic"], "spc/alert/mains_fault/action");
    assert_eq!(v["payload_press"], "isolate");
}

#[test]
fn capitalize_first_char() {
    assert_eq!(capitalize("inhibit"), "Inhibit");
    assert_eq!(capitalize(""), "");
    assert_eq!(capitalize("ßx"), "SSx");
}

#[test]
fn object_insert_replaces_in_place_and_merge() {
    let mut o = JsonObject::new();
    o.insert("a".into(), JsonValue::Leaf(JsonLeaf::Str("1".into())));
    o.insert("b".into(), JsonValue::Leaf(JsonLeaf::Int(2)));
    o.insert("a".into(), JsonValue::Leaf(JsonLeaf::Str("3".into())));
    assert_eq!(o.entries.len(), 2);
    assert_eq!(o.entries[0].0, "a");
    let mut extra = JsonObject::new();
    extra.insert("c".into(), JsonValue::Leaf(JsonLeaf::StrList(vec!["x".into()])));
    extra.insert("b".into(), JsonValue::Leaf(JsonLeaf::Int(5)));
    o.merge(&extra);
    let keys: Vec<&str> = o.entries.iter().map(|e| e.0.as_str()).collect();
    assert_eq!(keys, vec!["a", "b", "c"]);
    assert!(matches!(&o.entries[0].1, JsonValue::Leaf(JsonLeaf::Str(s)) if s == "3"));
    assert!(matches!(&o.entries[1].1, JsonValue::Leaf(JsonLeaf::Int(5))));
}

#[test]
fn announced_command_topics_route_back() {
    let c = ctx();
    let a = Area::new(5);
    let v = parse(&area_discovery_payload(&a, &c));
    let t = v["command_topic"].as_str().unwrap();
    match parse_command("spc", t, "Fullset") {
        Some(Command::Area { area_id, label }) => {
            assert_eq!(area_id, 5);
            assert_eq!(label, "Fullset");
        }
        other => panic!("{other:?}"),
    }
    let z = Zone::new(8);
    for act in ["inhibit", "isolate"] {
        let v = parse(&zone_button_discovery_payload(&z, act, &c));
        let t = v["command_topic"].as_str().unwrap();
        let p = v["payload_press"].as_str().unwrap();
        match parse_command("spc", t, p) {
            Some(Command::Zone { zone_id, action }) => {
                assert_eq!(zone_id, 8);
                assert_eq!(action, act);
            }
            other => panic!("{other:?}"),
        }
        let v = parse(&alert_button_discovery_payload("mains_fault", "Mains Fault", act, &c));
        let t = v["command_topic"].as_str().unwrap();
        let p = v["payload_press"].as_str().unwrap();
        match parse_command("spc", t, p) {
            Some(Command::Alert { sensor_id, action }) => {
                assert_eq!(sensor_id, "mains_fault");
                assert_eq!(action, act);
            }
            other => panic!("{other:?}"),
        }
    }
}
