use sonoff_minir3::EmptyResponse;
use sonoff_minir3::Error;
use sonoff_minir3::Info;
use sonoff_minir3::InfoData;
use sonoff_minir3::InfoResponse;
use sonoff_minir3::Startup;
use sonoff_minir3::StartupPosition;
use sonoff_minir3::Switch;
use sonoff_minir3::SwitchPosition;

fn success_envelope(switches: Vec<Switch>, configure: Vec<Startup>) -> InfoResponse {
    InfoResponse { data: Some(InfoData { switches, configure }), error: 0 }
}

#[test]
fn info_success_extracts_outlet0() {
    let envelope = success_envelope(
        vec![Switch { switch: "off".to_string(), outlet: 0 }],
        vec![Startup { startup: "off".to_string(), outlet: 0 }],
    );
    assert_eq!(
        Info::try_from(envelope),
        Ok(Info { switch: SwitchPosition::Off, startup: StartupPosition::Off })
    );
}

#[test]
fn info_takes_first_outlet0_entry() {
    let envelope = success_envelope(
        vec![
            Switch { switch: "off".to_string(), outlet: 2 },
            Switch { switch: "on".to_string(), outlet: 0 },
            Switch { switch: "off".to_string(), outlet: 0 },
        ],
        vec![
            Startup { startup: "off".to_string(), outlet: 1 },
            Startup { startup: "stay".to_string(), outlet: 0 },
        ],
    );
    assert_eq!(
        Info::try_from(envelope),
        Ok(Info { switch: SwitchPosition::On, startup: StartupPosition::Stay })
    );
}

#[test]
fn error_code_400_is_wrong_parameters() {
    let envelope = InfoResponse { data: None, error: 400 };
    assert_eq!(Info::try_from(envelope), Err(Error::WrongParameters));
    assert_eq!(EmptyResponse { error: 400 }.into_result(), Err(Error::WrongParameters));
}

#[test]
fn unmapped_error_code_is_kept() {
    let envelope = InfoResponse { data: None, error: 401 };
    assert_eq!(Info::try_from(envelope), Err(Error::UnknownCode(401)));
    let err = EmptyResponse { error: 401 }.into_result().unwrap_err();
    assert_eq!(err, Error::UnknownCode(401));
    assert_eq!(err.message(), "unknown device error code 401");
}

#[test]
fn missing_outlet0_is_malformed_not_a_panic() {
    let envelope = success_envelope(
        vec![Switch { switch: "on".to_string(), outlet: 1 }],
        vec![Startup { startup: "off".to_string(), outlet: 1 }],
    );
    assert_eq!(Info::try_from(envelope), Err(Error::MalformedResponse));
    let envelope = success_envelope(vec![], vec![]);
    assert_eq!(Info::try_from(envelope), Err(Error::MalformedResponse));
    let envelope = success_envelope(
        vec![Switch { switch: "on".to_string(), outlet: 0 }],
        vec![Startup { startup: "off".to_string(), outlet: 3 }],
    );
    assert_eq!(Info::try_from(envelope), Err(Error::MalformedResponse));
}

#[test]
fn missing_data_on_success_is_malformed() {
    let envelope = InfoResponse { data: None, error: 0 };
    assert_eq!(Info::try_from(envelope), Err(Error::MalformedResponse));
}

#[test]
fn unknown_token_is_malformed() {
    let envelope = success_envelope(
        vec![Switch { switch: "onn".to_string(), outlet: 0 }],
        vec![Startup { startup: "off".to_string(), outlet: 0 }],
    );
    assert_eq!(Info::try_from(envelope), Err(Error::MalformedResponse));
}

#[test]
fn info_round_trips_for_every_combination() {
    for switch in [SwitchPosition::On, SwitchPosition::Off] {
        for startup in [StartupPosition::On, StartupPosition::Off, StartupPosition::Stay] {
            let info = Info { switch, startup };
            assert_eq!(Info::try_from(info.into_response()), Ok(info));
        }
    }
}

#[test]
fn empty_response_succeeds_only_on_code_zero() {
    assert_eq!(EmptyResponse { error: 0 }.into_result(), Ok(()));
    assert_eq!(EmptyResponse { error: 400 }.into_result(), Err(Error::WrongParameters));
    assert_eq!(EmptyResponse { error: 7 }.into_result(), Err(Error::UnknownCode(7)));
}

#[test]
fn error_codes_map_to_typed_errors() {
    assert_eq!(Error::from_api_error_code(400), Error::WrongParameters);
    assert_eq!(Error::from_api_error_code(401), Error::UnknownCode(401));
    assert_eq!(Error::from_api_error_code(503), Error::UnknownCode(503));
}

#[test]
fn error_messages_are_readable() {
    assert_eq!(
        Error::WrongParameters.message(),
        "API errored with code 400, wrong parameters"
    );
    assert_eq!(Error::MalformedResponse.message(), "malformed response from device");
    assert_eq!(Error::UnknownCode(0).message(), "unknown device error code 0");
}
