use arduino_plotter::dec::{decode_inbound, decode_middleware, decode_settings};
use arduino_plotter::enc::{encode_inbound, encode_middleware, encode_settings};
use arduino_plotter::protocol::{
    ClientCommand, EndOfLine, LabelType, MiddlewareCommand, MonitorModelState, MonitorSettings,
    PluggableMonitorSetting, PluggableMonitorSettings,
};

fn full_model_state() -> MonitorModelState {
    MonitorModelState {
        autoscroll: Some(true),
        timestamp: Some(false),
        line_ending: Some(EndOfLine::CarriageReturnNewLine),
        interpolate: Some(true),
        dark_theme: Some(false),
        ws_port: Some(3030),
        serial_port: Some(String::from("/dev/ttyACM0")),
        connected: Some(true),
        generate: true,
    }
}

fn full_map() -> PluggableMonitorSettings {
    PluggableMonitorSettings(vec![
        (
            String::from("baudrate"),
            PluggableMonitorSetting {
                id: Some(String::from("baudrate")),
                label: Some(String::from("Baudrate")),
                type_: Some(LabelType::Enum),
                values: vec![
                    String::from("300"),
                    String::from("9600"),
                    String::from("115200"),
                ],
                selected_value: String::from("9600"),
            },
        ),
        (
            String::from("otherSetting"),
            PluggableMonitorSetting {
                id: None,
                label: None,
                type_: None,
                values: vec![],
                selected_value: String::from("B"),
            },
        ),
    ])
}

#[test]
fn settings_round_trip_all_absent() {
    let settings = MonitorSettings {
        pluggable_monitor_settings: None,
        monitor_ui_settings: None,
    };
    let text = encode_settings(&settings);
    assert_eq!(text, "{}");
    assert_eq!(decode_settings(&text), Ok(settings));
}

#[test]
fn settings_round_trip_all_present() {
    let settings = MonitorSettings {
        pluggable_monitor_settings: Some(full_map()),
        monitor_ui_settings: Some(full_model_state()),
    };
    let text = encode_settings(&settings);
    assert_eq!(decode_settings(&text), Ok(settings));
}

#[test]
fn settings_round_trip_mixed() {
    let only_ui = MonitorSettings {
        pluggable_monitor_settings: None,
        monitor_ui_settings: Some(MonitorModelState {
            dark_theme: Some(true),
            ..MonitorModelState::default()
        }),
    };
    let text = encode_settings(&only_ui);
    assert_eq!(
        text,
        "{\"monitorUISettings\":{\"darkTheme\":true,\"generate\":false}}"
    );
    assert_eq!(decode_settings(&text), Ok(only_ui));

    let only_map = MonitorSettings {
        pluggable_monitor_settings: Some(full_map()),
        monitor_ui_settings: None,
    };
    let text2 = encode_settings(&only_map);
    assert_eq!(decode_settings(&text2), Ok(only_map));
}

#[test]
fn middleware_round_trip() {
    let cmd = MiddlewareCommand(MonitorSettings {
        pluggable_monitor_settings: Some(full_map()),
        monitor_ui_settings: Some(full_model_state()),
    });
    let frame = encode_middleware(&cmd);
    assert!(frame.starts_with("{\"command\":\"ON_SETTINGS_DID_CHANGE\",\"data\":"));
    assert_eq!(decode_middleware(&frame), Ok(cmd));
}

#[test]
fn middleware_frame_is_exact() {
    let cmd = MiddlewareCommand(MonitorSettings {
        pluggable_monitor_settings: None,
        monitor_ui_settings: Some(MonitorModelState {
            line_ending: Some(EndOfLine::NoLineEnding),
            dark_theme: Some(true),
            connected: Some(true),
            ..MonitorModelState::default()
        }),
    });
    let frame = encode_middleware(&cmd);
    assert_eq!(
        frame,
        "{\"command\":\"ON_SETTINGS_DID_CHANGE\",\"data\":{\"monitorUISettings\":\
         {\"lineEnding\":\"\",\"darkTheme\":true,\"connected\":true,\"generate\":false}}}"
    );
}

#[test]
fn round_trip_keeps_escaped_strings() {
    let settings = MonitorSettings {
        pluggable_monitor_settings: None,
        monitor_ui_settings: Some(MonitorModelState {
            serial_port: Some(String::from("a\"b\\c\nd\te\u{1}f\u{1F600}")),
            ..MonitorModelState::default()
        }),
    };
    let text = encode_settings(&settings);
    assert!(text.contains("\\\"b\\\\c\\nd\\te\\u0001f"));
    assert_eq!(decode_settings(&text), Ok(settings));
}

#[test]
fn inbound_round_trip_send_message() {
    let cmd = ClientCommand::SendMessage(String::from("hello \"board\"\r\n"));
    let frame = encode_inbound(&cmd);
    assert_eq!(
        frame,
        "{\"command\":\"SEND_MESSAGE\",\"data\":\"hello \\\"board\\\"\\r\\n\"}"
    );
    assert_eq!(decode_inbound(&frame), Ok(cmd));
}

#[test]
fn inbound_round_trip_change_settings() {
    let cmd = ClientCommand::ChangeSettings(MonitorSettings {
        pluggable_monitor_settings: Some(full_map()),
        monitor_ui_settings: Some(full_model_state()),
    });
    let frame = encode_inbound(&cmd);
    assert_eq!(decode_inbound(&frame), Ok(cmd));
}

#[test]
fn round_trip_ws_port_bounds() {
    for port in [0u16, 1, 9, 10, 65535] {
        let settings = MonitorSettings {
            pluggable_monitor_settings: None,
            monitor_ui_settings: Some(MonitorModelState {
                ws_port: Some(port),
                ..MonitorModelState::default()
            }),
        };
        let text = encode_settings(&settings);
        assert_eq!(decode_settings(&text), Ok(settings));
    }
}
