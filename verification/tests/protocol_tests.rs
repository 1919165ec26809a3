use arduino_plotter::enc::{encode_data, encode_middleware};
use arduino_plotter::protocol::{
    ClientCommand, Command, CommandName, Data, EndOfLine, MiddlewareCommand, MonitorModelState,
    MonitorSettings, PluggableMonitorSettings,
};

#[test]
fn eol_round_trip_all_variants() {
    let table = [
        (EndOfLine::NoLineEnding, ""),
        (EndOfLine::NewLine, "\n"),
        (EndOfLine::CarriageReturn, "\r"),
        (EndOfLine::CarriageReturnNewLine, "\r\n"),
    ];
    for (eol, marker) in table {
        let encoded = eol.encode();
        assert_eq!(encoded, marker);
        assert_eq!(EndOfLine::decode(&encoded), Some(eol));
    }
}

#[test]
fn eol_decode_rejects_everything_else() {
    assert_eq!(EndOfLine::decode("x"), None);
    assert_eq!(EndOfLine::decode("\n\r"), None);
    assert_eq!(EndOfLine::decode("\r\n "), None);
    assert_eq!(EndOfLine::decode("\\n"), None);
}

#[test]
fn contains_eol_holds_of_every_string() {
    // The empty marker is a substring of everything, a quirk the wire
    // behaviour keeps.
    assert!(EndOfLine::contains_eol(String::from("")));
    assert!(EndOfLine::contains_eol(String::from("no line ending here")));
    assert!(EndOfLine::contains_eol(String::from("line\n")));
}

#[test]
fn data_lines_frame_is_exact() {
    let lines = vec![String::from("A:1\n"), String::from("B:2\n")];
    assert_eq!(encode_data(&lines), "[\"A:1\\n\",\"B:2\\n\"]");
}

#[test]
fn empty_data_frame() {
    assert_eq!(encode_data(&vec![]), "[]");
    let data = Data(vec![]);
    assert_eq!(data.encode(), "[]");
}

#[test]
fn data_encode_matches_free_function() {
    let lines = vec![String::from("L1:12,L2:45\n")];
    let data = Data(lines.clone());
    assert_eq!(data.encode(), encode_data(&lines));
    assert_eq!(data.encode(), "[\"L1:12,L2:45\\n\"]");
}

#[test]
fn command_names_on_the_wire() {
    assert_eq!(
        CommandName::OnSettingsDidChange.wire_name(),
        "ON_SETTINGS_DID_CHANGE"
    );
    assert_eq!(CommandName::SendMessage.wire_name(), "SEND_MESSAGE");
    assert_eq!(CommandName::ChangeSettings.wire_name(), "CHANGE_SETTINGS");
}

#[test]
fn middleware_command_to_command() {
    let settings = MonitorSettings {
        pluggable_monitor_settings: None,
        monitor_ui_settings: None,
    };
    let cmd = MiddlewareCommand(settings.clone()).to_command();
    assert_eq!(cmd.command, CommandName::OnSettingsDidChange);
    assert_eq!(cmd.data, settings);
}

#[test]
fn client_command_to_command() {
    let send = ClientCommand::SendMessage(String::from("hi\n"));
    let c: Command<String> = send.to_command();
    assert_eq!(c.command, CommandName::SendMessage);
    assert_eq!(c.data, "\"hi\\n\"");

    let change = ClientCommand::ChangeSettings(MonitorSettings {
        pluggable_monitor_settings: Some(PluggableMonitorSettings(vec![])),
        monitor_ui_settings: None,
    });
    let c2 = change.to_command();
    assert_eq!(c2.command, CommandName::ChangeSettings);
    assert_eq!(c2.data, "{\"pluggableMonitorSettings\":{}}");
}

#[test]
fn default_values_are_all_absent() {
    let m = MonitorModelState::default();
    assert_eq!(m.autoscroll, None);
    assert_eq!(m.line_ending, None);
    assert_eq!(m.generate, false);
    let s = MonitorSettings::default();
    assert_eq!(s.pluggable_monitor_settings, None);
    assert_eq!(s.monitor_ui_settings, None);
}

#[test]
fn try_from_command_enforces_the_tag() {
    let settings = MonitorSettings {
        pluggable_monitor_settings: None,
        monitor_ui_settings: None,
    };
    let ok = MiddlewareCommand::try_from_command(Command {
        command: CommandName::OnSettingsDidChange,
        data: settings.clone(),
    });
    assert_eq!(ok, Ok(MiddlewareCommand(settings.clone())));

    let err = MiddlewareCommand::try_from_command(Command {
        command: CommandName::SendMessage,
        data: settings,
    });
    assert_eq!(
        err,
        Err(arduino_plotter::error::DecodeError::WrongCommand(
            String::from("SEND_MESSAGE")
        ))
    );
}

#[test]
fn settings_map_insert_get_contains() {
    let mut map = PluggableMonitorSettings::new();
    let first = arduino_plotter::protocol::PluggableMonitorSetting {
        id: Some(String::from("baudrate")),
        label: None,
        type_: None,
        values: vec![],
        selected_value: String::from("9600"),
    };
    map.insert(String::from("baudrate"), first.clone());
    assert_eq!(map.len(), 1);
    assert!(map.contains_key("baudrate"));
    assert!(!map.contains_key("other"));
    assert_eq!(map.get("baudrate"), Some(&first));
    assert_eq!(map.get("other"), None);

    let second = arduino_plotter::protocol::PluggableMonitorSetting {
        selected_value: String::from("115200"),
        ..first.clone()
    };
    map.insert(String::from("baudrate"), second.clone());
    assert_eq!(map.len(), 1);
    assert_eq!(map.get("baudrate"), Some(&second));
}

#[test]
fn empty_settings_map() {
    let m = PluggableMonitorSettings::new();
    assert_eq!(m.len(), 0);
    let settings = MonitorSettings {
        pluggable_monitor_settings: Some(m),
        monitor_ui_settings: None,
    };
    let frame = encode_middleware(&MiddlewareCommand(settings));
    assert_eq!(
        frame,
        "{\"command\":\"ON_SETTINGS_DID_CHANGE\",\"data\":{\"pluggableMonitorSettings\":{}}}"
    );
}
