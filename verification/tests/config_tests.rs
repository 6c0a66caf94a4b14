use spc_mqtt::config::{parse_zone_class, Args, Config, Credentials};

#[test]
fn zone_class_values() {
    assert_eq!(parse_zone_class("1=door"), Ok((1, "door".to_string())));
    assert_eq!(parse_zone_class("12=motion=x"), Ok((12, "motion=x".to_string())));
    assert_eq!(parse_zone_class("3="), Ok((3, String::new())));
}

#[test]
fn zone_class_errors() {
    assert_eq!(parse_zone_class("door"), Err("expected ID=CLASS, got \"door\"".to_string()));
    assert_eq!(parse_zone_class("x=door"), Err("invalid zone ID: invalid digit found in string".to_string()));
    assert_eq!(parse_zone_class("=door"), Err("invalid zone ID: cannot parse integer from empty string".to_string()));
    assert_eq!(
        parse_zone_class("99999999999=door"),
        Err("invalid zone ID: number too large to fit in target type".to_string())
    );
}

fn args() -> Args {
    Args {
        spc_url: "https://panel/".into(),
        spc_creds: "creds.json".into(),
        mqtt_host: "broker".into(),
        mqtt_port: 1883,
        mqtt_creds: "mqtt-creds.json".into(),
        topic_prefix: "spc".into(),
        discovery_prefix: "homeassistant".into(),
        poll_interval: 5,
        zone_classes: vec![(1, "door".into()), (2, "motion".into()), (1, "window".into())],
    }
}

#[test]
fn config_from_args() {
    let creds = Credentials { login: "u".into(), password: "p".into() };
    let c = Config::from_args(args(), Some(creds));
    assert_eq!(c.spc_url, "https://panel/");
    assert_eq!(c.poll_interval_secs, 5);
    assert_eq!(c.mqtt_host, "broker");
    assert_eq!(c.mqtt_port, 1883);
    assert_eq!(c.mqtt_creds.as_ref().unwrap().login, "u");
    assert_eq!(c.topic_prefix, "spc");
    assert_eq!(c.discovery_prefix, "homeassistant");
    // a later class for the same zone wins
    assert_eq!(c.zone_device_class.len(), 2);
    assert_eq!(c.zone_device_class[&1], "window");
    assert_eq!(c.zone_device_class[&2], "motion");
    let c = Config::from_args(args(), None);
    assert!(c.mqtt_creds.is_none());
}
