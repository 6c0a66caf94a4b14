use spc_mqtt::topics::{client_id, command_filters, status_topic};

#[test]
fn session_names() {
    assert_eq!(client_id("643069802", 4711), "spc_mqtt_643069802_4711");
    assert_eq!(client_id("", 0), "spc_mqtt__0");
    assert_eq!(status_topic("spc"), "spc/status");
    assert_eq!(status_topic("home/alarm"), "home/alarm/status");
}

#[test]
fn subscription_filters() {
    assert_eq!(
        command_filters("spc"),
        vec!["spc/area/+/set".to_string(), "spc/zone/+/action".to_string(), "spc/alert/+/action".to_string()]
    );
}
