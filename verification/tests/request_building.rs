use sonoff_minir3::SwitchPosition;
use sonoff_minir3::StartupPosition;
use sonoff_minir3::build_info_request;
use sonoff_minir3::build_startup_request;
use sonoff_minir3::build_switch_request;
use sonoff_minir3::request_url;

#[test]
fn info_request_is_fixed_literal() {
    assert_eq!(build_info_request(), "{\"data\":{}}");
}

#[test]
fn switch_request_has_one_entry_for_outlet0() {
    for position in [SwitchPosition::On, SwitchPosition::Off] {
        let r = build_switch_request(position);
        assert_eq!(r.switches.len(), 1);
        assert_eq!(r.switches[0].outlet, 0);
        assert_eq!(r.switches[0].switch, position);
    }
}

#[test]
fn startup_request_sets_outlet0_and_resets_the_rest() {
    for position in [StartupPosition::On, StartupPosition::Off, StartupPosition::Stay] {
        let r = build_startup_request(position);
        assert_eq!(r.configure.len(), 4);
        assert_eq!(r.configure[0].outlet, 0);
        assert_eq!(r.configure[0].startup, position);
        for i in 1..4 {
            assert_eq!(r.configure[i].outlet, i as u8);
            assert_eq!(r.configure[i].startup, StartupPosition::Off);
        }
    }
}

#[test]
fn switches_request_renders_exact_json() {
    let r = build_switch_request(SwitchPosition::On);
    assert_eq!(
        r.to_json(),
        "{\"data\":{\"switches\":[{\"switch\":\"on\",\"outlet\":0}]}}"
    );
    let r = build_switch_request(SwitchPosition::Off);
    assert_eq!(
        r.to_json(),
        "{\"data\":{\"switches\":[{\"switch\":\"off\",\"outlet\":0}]}}"
    );
}

#[test]
fn startups_request_renders_exact_json() {
    let r = build_startup_request(StartupPosition::Stay);
    assert_eq!(
        r.to_json(),
        "{\"data\":{\"configure\":[{\"startup\":\"stay\",\"outlet\":0},\
         {\"startup\":\"off\",\"outlet\":1},{\"startup\":\"off\",\"outlet\":2},\
         {\"startup\":\"off\",\"outlet\":3}]}}"
    );
}

#[test]
fn request_url_joins_host_port_and_path() {
    assert_eq!(
        request_url("192.168.1.75", 8081, "info"),
        "http://192.168.1.75:8081/zeroconf/info"
    );
    assert_eq!(
        request_url("localhost", 80, "startups"),
        "http://localhost:80/zeroconf/startups"
    );
    assert_eq!(
        request_url("10.0.0.2", 65535, "switches"),
        "http://10.0.0.2:65535/zeroconf/switches"
    );
}
