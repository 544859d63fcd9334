use sonoff_minir3::StartupPosition;
use sonoff_minir3::SwitchPosition;

#[test]
fn switch_tokens_are_lowercase() {
    assert_eq!(SwitchPosition::On.token(), "on");
    assert_eq!(SwitchPosition::Off.token(), "off");
}

#[test]
fn startup_tokens_are_lowercase() {
    assert_eq!(StartupPosition::On.token(), "on");
    assert_eq!(StartupPosition::Off.token(), "off");
    assert_eq!(StartupPosition::Stay.token(), "stay");
}

#[test]
fn switch_tokens_round_trip() {
    for position in [SwitchPosition::On, SwitchPosition::Off] {
        assert_eq!(SwitchPosition::from_token(position.token()), Some(position));
    }
}

#[test]
fn startup_tokens_round_trip() {
    for position in [StartupPosition::On, StartupPosition::Off, StartupPosition::Stay] {
        assert_eq!(StartupPosition::from_token(position.token()), Some(position));
    }
}

#[test]
fn unknown_tokens_are_rejected() {
    assert_eq!(SwitchPosition::from_token(""), None);
    assert_eq!(SwitchPosition::from_token("On"), None);
    assert_eq!(SwitchPosition::from_token("stay"), None);
    assert_eq!(StartupPosition::from_token("stey"), None);
    assert_eq!(StartupPosition::from_token("offf"), None);
}
