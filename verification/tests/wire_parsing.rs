use sonoff_minir3::EmptyResponse;
use sonoff_minir3::Error;
use sonoff_minir3::Info;
use sonoff_minir3::StartupPosition;
use sonoff_minir3::SwitchPosition;
use sonoff_minir3::text::dec_of_usize;
use sonoff_minir3::text::str_eq;
use sonoff_minir3::wire::parse_empty_response;
use sonoff_minir3::wire::parse_info_response;

#[test]
fn parses_info_success_body() {
    let body = "{\"data\":{\"switches\":[{\"switch\":\"off\",\"outlet\":0}],\
                \"configure\":[{\"startup\":\"off\",\"outlet\":0}]},\"error\":0}";
    let envelope = parse_info_response(body).unwrap();
    assert_eq!(envelope.error, 0);
    assert_eq!(
        Info::try_from(envelope),
        Ok(Info { switch: SwitchPosition::Off, startup: StartupPosition::Off })
    );
}

#[test]
fn parses_info_body_with_all_outlets() {
    let body = "{\"data\":{\"switches\":[{\"switch\":\"on\",\"outlet\":0},\
                {\"switch\":\"off\",\"outlet\":1},{\"switch\":\"off\",\"outlet\":2},\
                {\"switch\":\"off\",\"outlet\":3}],\
                \"configure\":[{\"startup\":\"stay\",\"outlet\":0},\
                {\"startup\":\"off\",\"outlet\":1},{\"startup\":\"off\",\"outlet\":2},\
                {\"startup\":\"off\",\"outlet\":3}]},\"error\":0}";
    let envelope = parse_info_response(body).unwrap();
    let data = envelope.data.as_ref().unwrap();
    assert_eq!(data.switches.len(), 4);
    assert_eq!(data.configure.len(), 4);
    assert_eq!(
        Info::try_from(envelope),
        Ok(Info { switch: SwitchPosition::On, startup: StartupPosition::Stay })
    );
}

#[test]
fn info_error_body_maps_to_wrong_parameters() {
    let envelope = parse_info_response("{\"data\":null,\"error\":400}").unwrap();
    assert_eq!(Info::try_from(envelope), Err(Error::WrongParameters));
}

#[test]
fn info_unmapped_code_body_is_kept() {
    let envelope = parse_info_response("{\"data\":null,\"error\":401}").unwrap();
    assert_eq!(Info::try_from(envelope), Err(Error::UnknownCode(401)));
}

#[test]
fn info_body_without_outlet0_is_malformed() {
    let body = "{\"data\":{\"switches\":[{\"switch\":\"on\",\"outlet\":1}],\
                \"configure\":[{\"startup\":\"off\",\"outlet\":1}]},\"error\":0}";
    let envelope = parse_info_response(body).unwrap();
    assert_eq!(Info::try_from(envelope), Err(Error::MalformedResponse));
    let empty_lists = "{\"data\":{\"switches\":[],\"configure\":[]},\"error\":0}";
    let envelope = parse_info_response(empty_lists).unwrap();
    assert_eq!(Info::try_from(envelope), Err(Error::MalformedResponse));
}

#[test]
fn info_round_trips_through_the_wire_text() {
    for switch in [SwitchPosition::On, SwitchPosition::Off] {
        for startup in [StartupPosition::On, StartupPosition::Off, StartupPosition::Stay] {
            let body = format!(
                "{{\"data\":{{\"switches\":[{{\"switch\":\"{}\",\"outlet\":0}}],\
                 \"configure\":[{{\"startup\":\"{}\",\"outlet\":0}}]}},\"error\":0}}",
                switch.token(),
                startup.token()
            );
            let envelope = parse_info_response(&body).unwrap();
            assert_eq!(Info::try_from(envelope), Ok(Info { switch, startup }));
        }
    }
}

#[test]
fn info_rejects_texts_that_spell_no_envelope() {
    let bad = [
        "",
        "{}",
        "{\"data\":null,\"error\":0",
        "{\"data\":null,\"error\":00}",
        "{\"data\":{\"switches\":[],\"configure\":[]},\"error\":0} ",
        "{\"data\":{\"switches\":[{\"switch\":\"up\",\"outlet\":0}],\
         \"configure\":[]},\"error\":0}",
        "{\"data\":{\"switches\":[{\"switch\":\"on\",\"outlet\":0},],\
         \"configure\":[]},\"error\":0}",
        "{\"data\":{\"switches\":[{\"switch\":\"on\",\"outlet\":256}],\
         \"configure\":[]},\"error\":0}",
        "{\"data\":{\"switches\":[]},\"error\":0}",
        "{\"error\":0,\"data\":null}",
    ];
    for text in bad {
        assert_eq!(parse_info_response(text), Err(Error::MalformedResponse));
    }
}

#[test]
fn parses_plain_success_envelope() {
    assert_eq!(parse_empty_response("{\"error\":0}"), Ok(EmptyResponse { error: 0 }));
    assert_eq!(
        parse_empty_response("{\"error\":0}").unwrap().into_result(),
        Ok(())
    );
}

#[test]
fn parses_null_data_error_envelope() {
    let envelope = parse_empty_response("{\"data\":null,\"error\":400}").unwrap();
    assert_eq!(envelope, EmptyResponse { error: 400 });
    assert_eq!(envelope.into_result(), Err(Error::WrongParameters));
}

#[test]
fn parses_unmapped_code_envelope() {
    let envelope = parse_empty_response("{\"data\":null,\"error\":401}").unwrap();
    assert_eq!(envelope.into_result(), Err(Error::UnknownCode(401)));
}

#[test]
fn rejects_texts_that_spell_no_envelope() {
    let bad = [
        "",
        "{}",
        "{\"error\":}",
        "{\"error\":01}",
        "{\"error\":0} ",
        "{\"error\":0",
        "{\"error\" :0}",
        "{\"data\":null,\"error\":400",
        "{\"data\":{},\"error\":400}",
        "null",
        "{\"error\":-1}",
        "{\"error\":99999999999999999999999999999}",
    ];
    for text in bad {
        assert_eq!(parse_empty_response(text), Err(Error::MalformedResponse));
    }
}

#[test]
fn decimal_rendering_is_exact() {
    assert_eq!(dec_of_usize(0), "0");
    assert_eq!(dec_of_usize(8), "8");
    assert_eq!(dec_of_usize(400), "400");
    assert_eq!(dec_of_usize(8081), "8081");
    assert_eq!(dec_of_usize(65535), "65535");
}

#[test]
fn string_equality_is_by_characters() {
    assert!(str_eq("", ""));
    assert!(str_eq("abc", "abc"));
    assert!(!str_eq("abc", "abd"));
    assert!(!str_eq("abc", "abcd"));
    assert!(!str_eq("on", "off"));
}
