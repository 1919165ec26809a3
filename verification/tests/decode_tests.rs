use arduino_plotter::dec::{decode_inbound, decode_middleware, decode_settings};
use arduino_plotter::error::DecodeError;
use arduino_plotter::protocol::{ClientCommand, EndOfLine, MonitorModelState, MonitorSettings};

#[test]
fn middleware_rejects_client_tag() {
    let r = decode_middleware("{\"command\":\"SEND_MESSAGE\",\"data\":{}}");
    assert_eq!(r, Err(DecodeError::WrongCommand(String::from("SEND_MESSAGE"))));
    let r2 = decode_middleware("{\"command\":\"CHANGE_SETTINGS\",\"data\":{}}");
    assert_eq!(
        r2,
        Err(DecodeError::WrongCommand(String::from("CHANGE_SETTINGS")))
    );
}

#[test]
fn middleware_rejects_unknown_tag_as_json() {
    let r = decode_middleware("{\"command\":\"FOO\",\"data\":{}}");
    assert_eq!(r, Err(DecodeError::Json));
}

#[test]
fn inbound_rejects_unknown_tag() {
    let r = decode_inbound("{\"command\":\"FOO\",\"data\":{}}");
    assert_eq!(r, Err(DecodeError::UnknownCommand(String::from("FOO"))));
}

#[test]
fn inbound_rejects_middleware_tag() {
    let r = decode_inbound("{\"command\":\"ON_SETTINGS_DID_CHANGE\",\"data\":{}}");
    assert_eq!(
        r,
        Err(DecodeError::UnknownCommand(String::from(
            "ON_SETTINGS_DID_CHANGE"
        )))
    );
}

#[test]
fn missing_selected_value_fails() {
    let text = "{\"pluggableMonitorSettings\":{\"baudrate\":\
                {\"id\":\"baudrate\",\"values\":[\"9600\"]}}}";
    assert_eq!(decode_settings(text), Err(DecodeError::Json));
}

#[test]
fn setting_with_only_selected_value_passes() {
    let text = "{\"pluggableMonitorSettings\":{\"baudrate\":{\"selectedValue\":\"9600\"}}}";
    let r = decode_settings(text).expect("minimal setting should decode");
    let map = r.pluggable_monitor_settings.expect("map present");
    assert_eq!(map.0.len(), 1);
    assert_eq!(map.0[0].0, "baudrate");
    assert_eq!(map.0[0].1.selected_value, "9600");
    assert_eq!(map.0[0].1.id, None);
    assert_eq!(map.0[0].1.values, Vec::<String>::new());
}

#[test]
fn inbound_send_message() {
    let r = decode_inbound("{\"command\":\"SEND_MESSAGE\",\"data\":\"hello\\n\"}");
    assert_eq!(r, Ok(ClientCommand::SendMessage(String::from("hello\n"))));
}

#[test]
fn inbound_change_settings_line_ending() {
    let r = decode_inbound(
        "{\"command\":\"CHANGE_SETTINGS\",\"data\":{\"monitorUISettings\":{\"lineEnding\":\"\\n\"}}}",
    );
    let expected = ClientCommand::ChangeSettings(MonitorSettings {
        pluggable_monitor_settings: None,
        monitor_ui_settings: Some(MonitorModelState {
            line_ending: Some(EndOfLine::NewLine),
            ..MonitorModelState::default()
        }),
    });
    assert_eq!(r, Ok(expected));
}

#[test]
fn members_in_any_order() {
    let r = decode_inbound("{\"data\":\"hi\",\"command\":\"SEND_MESSAGE\"}");
    assert_eq!(r, Ok(ClientCommand::SendMessage(String::from("hi"))));
}

#[test]
fn whitespace_is_tolerated() {
    let r = decode_inbound(
        " {\n  \"command\" : \"SEND_MESSAGE\" ,\r\n  \"data\" : \"x\"\t} ",
    );
    assert_eq!(r, Ok(ClientCommand::SendMessage(String::from("x"))));
}

#[test]
fn unknown_members_are_skipped() {
    let r = decode_settings(
        "{\"extra\":[1,2,{\"nested\":null}],\"monitorUISettings\":{\"generate\":true,\
         \"junk\":-1.5e3},\"more\":\"x\"}",
    );
    let v = r.expect("unknown members must be skipped");
    assert_eq!(v.monitor_ui_settings.expect("ui settings present").generate, true);
}

#[test]
fn duplicate_member_fails() {
    let r = decode_settings("{\"monitorUISettings\":{},\"monitorUISettings\":{}}");
    assert_eq!(r, Err(DecodeError::Json));
}

#[test]
fn null_optional_members_decode_to_absent() {
    let r = decode_settings(
        "{\"pluggableMonitorSettings\":null,\"monitorUISettings\":{\"autoscroll\":null,\
         \"wsPort\":null,\"serialPort\":null,\"lineEnding\":null,\"generate\":false}}",
    );
    let v = r.expect("null members decode");
    assert_eq!(v.pluggable_monitor_settings, None);
    let ui = v.monitor_ui_settings.expect("ui present");
    assert_eq!(ui.autoscroll, None);
    assert_eq!(ui.ws_port, None);
    assert_eq!(ui.serial_port, None);
    assert_eq!(ui.line_ending, None);
}

#[test]
fn ws_port_overflow_fails() {
    let ok = decode_settings("{\"monitorUISettings\":{\"wsPort\":65535}}");
    assert!(ok.is_ok());
    let too_big = decode_settings("{\"monitorUISettings\":{\"wsPort\":65536}}");
    assert_eq!(too_big, Err(DecodeError::Json));
    let huge = decode_settings(
        "{\"monitorUISettings\":{\"wsPort\":99999999999999999999999999}}",
    );
    assert_eq!(huge, Err(DecodeError::Json));
}

#[test]
fn bad_line_ending_fails() {
    let r = decode_settings("{\"monitorUISettings\":{\"lineEnding\":\"x\"}}");
    assert_eq!(r, Err(DecodeError::Json));
}

#[test]
fn malformed_json_fails() {
    assert_eq!(decode_inbound(""), Err(DecodeError::Json));
    assert_eq!(decode_inbound("not json"), Err(DecodeError::Json));
    assert_eq!(decode_inbound("{\"command\":\"SEND_MESSAGE\""), Err(DecodeError::Json));
    assert_eq!(decode_inbound("{}"), Err(DecodeError::Json));
    assert_eq!(
        decode_inbound("{\"command\":\"SEND_MESSAGE\",\"data\":\"x\"} trailing"),
        Err(DecodeError::Json)
    );
    assert_eq!(decode_inbound("{\"command\":\"SEND_MESSAGE\"}"), Err(DecodeError::Json));
    assert_eq!(decode_inbound("{\"data\":\"x\"}"), Err(DecodeError::Json));
}

#[test]
fn wrong_payload_shape_fails() {
    // SEND_MESSAGE wants a string payload, CHANGE_SETTINGS an object.
    assert_eq!(
        decode_inbound("{\"command\":\"SEND_MESSAGE\",\"data\":{}}"),
        Err(DecodeError::Json)
    );
    assert_eq!(
        decode_inbound("{\"command\":\"CHANGE_SETTINGS\",\"data\":\"x\"}"),
        Err(DecodeError::Json)
    );
    assert_eq!(
        decode_inbound("{\"command\":\"CHANGE_SETTINGS\",\"data\":7}"),
        Err(DecodeError::Json)
    );
}

#[test]
fn string_escapes_decode() {
    let r = decode_inbound(
        "{\"command\":\"SEND_MESSAGE\",\"data\":\"\\u0041\\u00e9\\uD83D\\uDE00\\\\\\\"\\/\\b\\f\"}",
    );
    assert_eq!(
        r,
        Ok(ClientCommand::SendMessage(String::from("Aé😀\\\"/\u{8}\u{c}")))
    );
}

#[test]
fn lone_surrogate_fails() {
    let r = decode_inbound("{\"command\":\"SEND_MESSAGE\",\"data\":\"\\uD800\"}");
    assert_eq!(r, Err(DecodeError::Json));
}

#[test]
fn raw_control_char_in_string_fails() {
    let r = decode_inbound("{\"command\":\"SEND_MESSAGE\",\"data\":\"a\u{1}b\"}");
    assert_eq!(r, Err(DecodeError::Json));
}

#[test]
fn duplicate_map_key_last_wins() {
    let r = decode_settings(
        "{\"pluggableMonitorSettings\":{\"k\":{\"selectedValue\":\"1\"},\
         \"k\":{\"selectedValue\":\"2\"}}}",
    );
    let v = r.expect("map decodes");
    let map = v.pluggable_monitor_settings.expect("map present");
    assert_eq!(map.0.len(), 1);
    assert_eq!(map.0[0].1.selected_value, "2");
}

#[test]
fn values_must_be_strings() {
    let r = decode_settings(
        "{\"pluggableMonitorSettings\":{\"k\":{\"values\":[1],\"selectedValue\":\"x\"}}}",
    );
    assert_eq!(r, Err(DecodeError::Json));
}

#[test]
fn generate_must_be_boolean() {
    let r = decode_settings("{\"monitorUISettings\":{\"generate\":null}}");
    assert_eq!(r, Err(DecodeError::Json));
    let r2 = decode_settings("{\"monitorUISettings\":{\"generate\":1}}");
    assert_eq!(r2, Err(DecodeError::Json));
}

#[test]
fn leading_zero_number_fails() {
    let r = decode_settings("{\"monitorUISettings\":{\"wsPort\":0123}}");
    assert_eq!(r, Err(DecodeError::Json));
}

#[test]
fn raw_astral_characters_pass_through() {
    let r = decode_inbound("{\"command\":\"SEND_MESSAGE\",\"data\":\"😀\"}");
    assert_eq!(r, Ok(ClientCommand::SendMessage(String::from("😀"))));
}

#[test]
fn empty_message_payload() {
    let r = decode_inbound("{\"command\":\"SEND_MESSAGE\",\"data\":\"\"}");
    assert_eq!(r, Ok(ClientCommand::SendMessage(String::new())));
}

#[test]
fn unknown_envelope_members_are_skipped() {
    let r = decode_inbound(
        "{\"version\":3,\"command\":\"SEND_MESSAGE\",\"data\":\"x\",\"trailer\":[true,null]}",
    );
    assert_eq!(r, Ok(ClientCommand::SendMessage(String::from("x"))));
}

#[test]
fn deeply_nested_unknown_value_hits_the_budget() {
    // 200 nested arrays in an unknown member exceed the nesting budget.
    let mut text = String::from("{\"junk\":");
    for _ in 0..200 {
        text.push('[');
    }
    for _ in 0..200 {
        text.push(']');
    }
    text.push('}');
    assert_eq!(decode_settings(&text), Err(DecodeError::Json));
}

#[test]
fn shallow_unknown_nesting_is_fine() {
    let mut text = String::from("{\"junk\":");
    for _ in 0..20 {
        text.push('[');
    }
    for _ in 0..20 {
        text.push(']');
    }
    text.push('}');
    assert_eq!(
        decode_settings(&text),
        Ok(MonitorSettings {
            pluggable_monitor_settings: None,
            monitor_ui_settings: None,
        })
    );
}
