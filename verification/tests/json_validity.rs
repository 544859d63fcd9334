//! Holds the request encoders against an independent JSON codec: what they
//! render must decode as JSON with exactly the documented structure.

use sonoff_minir3::StartupPosition;
use sonoff_minir3::SwitchPosition;
use sonoff_minir3::build_info_request;
use sonoff_minir3::build_startup_request;
use sonoff_minir3::build_switch_request;

#[test]
fn info_request_decodes_as_json() {
    let value: serde_json::Value = serde_json::from_str(&build_info_request()).unwrap();
    let data = value.get("data").unwrap().as_object().unwrap();
    assert!(data.is_empty());
}

#[test]
fn switch_request_decodes_as_json() {
    let text = build_switch_request(SwitchPosition::On).to_json();
    let value: serde_json::Value = serde_json::from_str(&text).unwrap();
    let entries = value["data"]["switches"].as_array().unwrap();
    assert_eq!(entries.len(), 1);
    assert_eq!(entries[0]["switch"], "on");
    assert_eq!(entries[0]["outlet"], 0);
}

#[test]
fn startup_request_decodes_as_json() {
    let text = build_startup_request(StartupPosition::Stay).to_json();
    let value: serde_json::Value = serde_json::from_str(&text).unwrap();
    let entries = value["data"]["configure"].as_array().unwrap();
    assert_eq!(entries.len(), 4);
    assert_eq!(entries[0]["startup"], "stay");
    assert_eq!(entries[0]["outlet"], 0);
    for i in 1..4 {
        assert_eq!(entries[i]["startup"], "off");
        assert_eq!(entries[i]["outlet"], i);
    }
}
