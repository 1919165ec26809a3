//! The wire protocol data model: command names, settings payloads and the
//! line-ending table, together with their specification-level views.

use vstd::prelude::*;
use vstd::string::StrSliceExecFns;
use vstd::string::StringExecFns;

verus! {

/// The names of the commands that travel inside the `{command, data}`
/// envelope, serialized as upper-snake-case strings.
#[derive(Debug, Clone, Copy, PartialEq, Eq, Structural)]
pub enum CommandName {
    /// Middleware to UI: the monitor settings changed.
    OnSettingsDidChange,
    /// UI to middleware: send a message to the board.
    SendMessage,
    /// UI to middleware: change the monitor settings.
    ChangeSettings,
}

impl CommandName {
    /// The exact string used for this command on the wire.
    pub open spec fn spec_wire_name(self) -> Seq<char> {
        match self {
            CommandName::OnSettingsDidChange => "ON_SETTINGS_DID_CHANGE"@,
            CommandName::SendMessage => "SEND_MESSAGE"@,
            CommandName::ChangeSettings => "CHANGE_SETTINGS"@,
        }
    }

    /// The command name a wire string denotes, if any.
    pub open spec fn spec_of_wire_name(s: Seq<char>) -> Option<CommandName> {
        if s == "ON_SETTINGS_DID_CHANGE"@ {
            Some(CommandName::OnSettingsDidChange)
        } else if s == "SEND_MESSAGE"@ {
            Some(CommandName::SendMessage)
        } else if s == "CHANGE_SETTINGS"@ {
            Some(CommandName::ChangeSettings)
        } else {
            None
        }
    }

    /// The command-name table inverts itself: every command decodes back
    /// from its wire name.
    pub proof fn lemma_wire_name_round_trip(self)
        ensures
            CommandName::spec_of_wire_name(self.spec_wire_name()) == Some(self),
    {
        reveal_strlit("ON_SETTINGS_DID_CHANGE");
        reveal_strlit("SEND_MESSAGE");
        reveal_strlit("CHANGE_SETTINGS");
        assert("ON_SETTINGS_DID_CHANGE"@.len() == 22);
        assert("SEND_MESSAGE"@.len() == 12);
        assert("CHANGE_SETTINGS"@.len() == 15);
    }

    /// Executable form of [`CommandName::spec_wire_name`].
    pub fn wire_name(&self) -> (r: String)
        ensures
            r@ == self.spec_wire_name(),
    {
        match self {
            CommandName::OnSettingsDidChange => String::from_str("ON_SETTINGS_DID_CHANGE"),
            CommandName::SendMessage => String::from_str("SEND_MESSAGE"),
            CommandName::ChangeSettings => String::from_str("CHANGE_SETTINGS"),
        }
    }
}

/// The generic `{command, data}` wire wrapper shared by all enveloped
/// messages.
#[derive(Debug, Clone, PartialEq)]
pub struct Command<T> {
    pub command: CommandName,
    pub data: T,
}

/// Data lines sent to the plotter, serialized as a bare JSON array of
/// strings with no envelope.
#[derive(Debug, Clone, PartialEq)]
pub struct Data(pub Vec<String>);

impl View for Data {
    type V = Seq<Seq<char>>;

    open spec fn view(&self) -> Seq<Seq<char>> {
        self.0@.map_values(|s: String| s@)
    }
}

/// The four line endings the plotter UI understands.  Each is encoded, both
/// for JSON and for display, as the literal marker string; the UI matches on
/// these exact byte sequences.
#[derive(Debug, Clone, Copy, PartialEq, Eq, Structural)]
pub enum EndOfLine {
    NoLineEnding,
    NewLine,
    CarriageReturn,
    CarriageReturnNewLine,
}

impl EndOfLine {
    /// The marker string of this line ending.
    pub open spec fn spec_encode(self) -> Seq<char> {
        match self {
            EndOfLine::NoLineEnding => ""@,
            EndOfLine::NewLine => "\n"@,
            EndOfLine::CarriageReturn => "\r"@,
            EndOfLine::CarriageReturnNewLine => "\r\n"@,
        }
    }

    /// The line ending a marker string denotes, if any.
    pub open spec fn spec_decode(s: Seq<char>) -> Option<EndOfLine> {
        if s == ""@ {
            Some(EndOfLine::NoLineEnding)
        } else if s == "\n"@ {
            Some(EndOfLine::NewLine)
        } else if s == "\r"@ {
            Some(EndOfLine::CarriageReturn)
        } else if s == "\r\n"@ {
            Some(EndOfLine::CarriageReturnNewLine)
        } else {
            None
        }
    }

    /// Encode this line ending as its exact marker string.
    pub fn encode(&self) -> (r: String)
        ensures
            r@ == self.spec_encode(),
    {
        match self {
            EndOfLine::NoLineEnding => String::from_str(""),
            EndOfLine::NewLine => String::from_str("\n"),
            EndOfLine::CarriageReturn => String::from_str("\r"),
            EndOfLine::CarriageReturnNewLine => String::from_str("\r\n"),
        }
    }

    /// Decode a marker string; anything but the four exact markers is
    /// rejected.
    pub fn decode(s: &str) -> (r: Option<EndOfLine>)
        ensures
            r == EndOfLine::spec_decode(s@),
    {
        proof {
            reveal_strlit("");
            reveal_strlit("\n");
            reveal_strlit("\r");
            reveal_strlit("\r\n");
        }
        let n = s.unicode_len();
        if n == 0 {
            assert(s@ =~= ""@);
            Some(EndOfLine::NoLineEnding)
        } else if n == 1 {
            let c = s.get_char(0);
            if c == '\n' {
                assert(s@ =~= "\n"@);
                Some(EndOfLine::NewLine)
            } else if c == '\r' {
                assert(s@ =~= "\r"@);
                Some(EndOfLine::CarriageReturn)
            } else {
                assert(s@ != ""@ && s@ != "\n"@ && s@ != "\r"@ && s@ != "\r\n"@);
                None
            }
        } else if n == 2 {
            let c0 = s.get_char(0);
            let c1 = s.get_char(1);
            if c0 == '\r' && c1 == '\n' {
                assert(s@ =~= "\r\n"@);
                Some(EndOfLine::CarriageReturnNewLine)
            } else {
                assert(s@ != ""@ && s@ != "\n"@ && s@ != "\r"@ && s@ != "\r\n"@);
                None
            }
        } else {
            assert(s@ != ""@ && s@ != "\n"@ && s@ != "\r"@ && s@ != "\r\n"@);
            None
        }
    }

    /// Whether a string contains one of the four line-ending markers.
    ///
    /// The empty marker is a substring of every string, so this holds of
    /// every input; the quirk is part of the wire-facing behaviour and is
    /// kept as it is.
    pub fn contains_eol(string: String) -> (r: bool)
        ensures
            r,
    {
        let _unused = string;
        true
    }
}

/// The setting type of a pluggable monitor setting; only an enumeration of
/// string values exists.
#[derive(Debug, Clone, Copy, PartialEq, Eq, Structural)]
pub enum LabelType {
    Enum,
}

/// Specification-level view of [`PluggableMonitorSetting`].
#[verifier::ext_equal]
pub struct PluggableMonitorSettingV {
    pub id: Option<Seq<char>>,
    pub label: Option<Seq<char>>,
    pub type_: Option<LabelType>,
    pub values: Seq<Seq<char>>,
    pub selected_value: Seq<char>,
}

/// A single pluggable monitor setting: a named, enumerable configuration
/// knob (for example the baud rate) exposed to the UI.  `selected_value` is
/// the one mandatory field.
#[derive(Debug, Clone, PartialEq)]
pub struct PluggableMonitorSetting {
    /// The setting identifier, e.g. `"baudrate"`.
    pub id: Option<String>,
    /// A human-readable label to display, e.g. `"Baudrate"`.
    pub label: Option<String>,
    /// The setting type; serialized under the wire key `type`.
    pub type_: Option<LabelType>,
    /// The values an enumeration setting allows.
    pub values: Vec<String>,
    /// The selected value; required on the wire.
    pub selected_value: String,
}

impl View for PluggableMonitorSetting {
    type V = PluggableMonitorSettingV;

    open spec fn view(&self) -> PluggableMonitorSettingV {
        PluggableMonitorSettingV {
            id: match self.id {
                Some(ref s) => Some(s@),
                None => None,
            },
            label: match self.label {
                Some(ref s) => Some(s@),
                None => None,
            },
            type_: self.type_,
            values: self.values@.map_values(|s: String| s@),
            selected_value: self.selected_value@,
        }
    }
}

/// The pluggable monitor settings of a connected device, a mapping from
/// setting id to [`PluggableMonitorSetting`], held as a sequence of
/// key-value pairs with pairwise distinct keys.
#[derive(Debug, Clone, PartialEq)]
pub struct PluggableMonitorSettings(pub Vec<(String, PluggableMonitorSetting)>);

impl View for PluggableMonitorSettings {
    type V = Seq<(Seq<char>, PluggableMonitorSettingV)>;

    open spec fn view(&self) -> Seq<(Seq<char>, PluggableMonitorSettingV)> {
        self.0@.map_values(|p: (String, PluggableMonitorSetting)| (p.0@, p.1@))
    }
}

/// Distinct keys: the well-formedness of a settings map.
pub open spec fn map_keys_distinct(s: Seq<(Seq<char>, PluggableMonitorSettingV)>) -> bool {
    forall|i: int, j: int| 0 <= i < j < s.len() ==> s[i].0 != s[j].0
}

impl PluggableMonitorSettings {
    /// The map is well formed when no setting id occurs twice.
    pub open spec fn wf(&self) -> bool {
        map_keys_distinct(self@)
    }

    /// An empty settings map.
    pub fn new() -> (r: PluggableMonitorSettings)
        ensures
            r@ == Seq::<(Seq<char>, PluggableMonitorSettingV)>::empty(),
            r.wf(),
    {
        let r = PluggableMonitorSettings(Vec::new());
        proof {
            assert(r@ =~= Seq::<(Seq<char>, PluggableMonitorSettingV)>::empty());
        }
        r
    }

    /// How many settings the map holds.
    pub fn len(&self) -> (n: usize)
        ensures
            n == self@.len(),
    {
        self.0.len()
    }
}

/// Specification-level view of [`MonitorModelState`].
#[verifier::ext_equal]
pub struct MonitorModelStateV {
    pub autoscroll: Option<bool>,
    pub timestamp: Option<bool>,
    pub line_ending: Option<EndOfLine>,
    pub interpolate: Option<bool>,
    pub dark_theme: Option<bool>,
    pub ws_port: Option<u16>,
    pub serial_port: Option<Seq<char>>,
    pub connected: Option<bool>,
    pub generate: bool,
}

/// The UI monitor preferences.  Every optional field is omitted from the
/// wire when unset; `generate` is always present and defaults to `false`.
#[derive(Debug, Clone, PartialEq)]
pub struct MonitorModelState {
    /// Stick the monitor view to the bottom of the window.
    pub autoscroll: Option<bool>,
    /// Show a timestamp next to the data.
    pub timestamp: Option<bool>,
    /// The last end of line used when sending a message to the board.
    pub line_ending: Option<EndOfLine>,
    /// Interpolate the chart.
    pub interpolate: Option<bool>,
    /// Dark theme rather than light.
    pub dark_theme: Option<bool>,
    /// The WebSocket port where the communication happens.
    pub ws_port: Option<u16>,
    /// The serial port the middleware monitor is connected to.
    pub serial_port: Option<String>,
    /// Whether the monitor is connected to the board.
    pub connected: Option<bool>,
    /// Generate mocked data.
    pub generate: bool,
}

impl View for MonitorModelState {
    type V = MonitorModelStateV;

    open spec fn view(&self) -> MonitorModelStateV {
        MonitorModelStateV {
            autoscroll: self.autoscroll,
            timestamp: self.timestamp,
            line_ending: self.line_ending,
            interpolate: self.interpolate,
            dark_theme: self.dark_theme,
            ws_port: self.ws_port,
            serial_port: match self.serial_port {
                Some(ref s) => Some(s@),
                None => None,
            },
            connected: self.connected,
            generate: self.generate,
        }
    }
}

impl MonitorModelStateV {
    /// The state with every field unset.
    pub open spec fn spec_default() -> MonitorModelStateV {
        MonitorModelStateV {
            autoscroll: None,
            timestamp: None,
            line_ending: None,
            interpolate: None,
            dark_theme: None,
            ws_port: None,
            serial_port: None,
            connected: None,
            generate: false,
        }
    }
}

impl Default for MonitorModelState {
    /// The state with every field unset.
    fn default() -> (r: MonitorModelState)
        ensures
            r@ == MonitorModelStateV::spec_default(),
    {
        MonitorModelState {
            autoscroll: None,
            timestamp: None,
            line_ending: None,
            interpolate: None,
            dark_theme: None,
            ws_port: None,
            serial_port: None,
            connected: None,
            generate: false,
        }
    }
}

/// Specification-level view of [`MonitorSettings`].
#[verifier::ext_equal]
pub struct MonitorSettingsV {
    pub pluggable_monitor_settings: Option<Seq<(Seq<char>, PluggableMonitorSettingV)>>,
    pub monitor_ui_settings: Option<MonitorModelStateV>,
}

/// The settings payload of the middleware's settings-change notification:
/// both halves are optional and omitted from the wire when absent.
#[derive(Debug, Clone, PartialEq)]
pub struct MonitorSettings {
    pub pluggable_monitor_settings: Option<PluggableMonitorSettings>,
    pub monitor_ui_settings: Option<MonitorModelState>,
}

impl View for MonitorSettings {
    type V = MonitorSettingsV;

    open spec fn view(&self) -> MonitorSettingsV {
        MonitorSettingsV {
            pluggable_monitor_settings: match self.pluggable_monitor_settings {
                Some(ref s) => Some(s@),
                None => None,
            },
            monitor_ui_settings: match self.monitor_ui_settings {
                Some(ref s) => Some(s@),
                None => None,
            },
        }
    }
}

impl MonitorSettingsV {
    /// A well-formed settings value: the settings map, when present, has
    /// distinct keys.
    pub open spec fn wf(self) -> bool {
        match self.pluggable_monitor_settings {
            Some(m) => map_keys_distinct(m),
            None => true,
        }
    }

    /// The settings value with both halves absent.
    pub open spec fn spec_default() -> MonitorSettingsV {
        MonitorSettingsV { pluggable_monitor_settings: None, monitor_ui_settings: None }
    }
}

impl Default for MonitorSettings {
    /// The settings value with both halves absent.
    fn default() -> (r: MonitorSettings)
        ensures
            r@ == MonitorSettingsV::spec_default(),
    {
        MonitorSettings { pluggable_monitor_settings: None, monitor_ui_settings: None }
    }
}

/// The middleware-to-UI settings notification: a [`MonitorSettings`] value
/// that travels in an envelope whose command is
/// [`CommandName::OnSettingsDidChange`].
#[derive(Debug, Clone, PartialEq)]
pub struct MiddlewareCommand(pub MonitorSettings);

impl View for MiddlewareCommand {
    type V = MonitorSettingsV;

    open spec fn view(&self) -> MonitorSettingsV {
        self.0@
    }
}

impl MiddlewareCommand {
    /// Wrap the settings in their envelope.
    pub fn to_command(self) -> (r: Command<MonitorSettings>)
        ensures
            r.command == CommandName::OnSettingsDidChange,
            r.data == self.0,
    {
        Command { command: CommandName::OnSettingsDidChange, data: self.0 }
    }

    /// Unwrap an envelope into a settings notification: succeeds exactly
    /// when the envelope's command is the settings notification, and fails
    /// with a shape-mismatch error naming the unexpected command otherwise.
    pub fn try_from_command(command: Command<MonitorSettings>) -> (r: Result<
        MiddlewareCommand,
        crate::error::DecodeError,
    >)
        ensures
            match r {
                Ok(c) => command.command == CommandName::OnSettingsDidChange && c.0
                    == command.data,
                Err(e) => command.command != CommandName::OnSettingsDidChange && e@
                    == crate::error::DecodeErrorV::WrongCommand(
                    command.command.spec_wire_name(),
                ),
            },
    {
        match command.command {
            CommandName::OnSettingsDidChange => Ok(MiddlewareCommand(command.data)),
            name => Err(crate::error::DecodeError::WrongCommand(name.wire_name())),
        }
    }
}

/// Specification-level view of [`ClientCommand`].
#[verifier::ext_equal]
pub enum ClientCommandV {
    SendMessage(Seq<char>),
    ChangeSettings(MonitorSettingsV),
}

/// The two commands the plotter UI sends to the middleware.
#[derive(Debug, Clone, PartialEq)]
pub enum ClientCommand {
    /// Send a message to the board through the serial port.
    SendMessage(String),
    /// Change the monitor settings.
    ChangeSettings(MonitorSettings),
}

impl View for ClientCommand {
    type V = ClientCommandV;

    open spec fn view(&self) -> ClientCommandV {
        match self {
            ClientCommand::SendMessage(s) => ClientCommandV::SendMessage(s@),
            ClientCommand::ChangeSettings(m) => ClientCommandV::ChangeSettings(m@),
        }
    }
}

impl ClientCommand {
    /// The command name this client command travels under.
    pub fn command_name(&self) -> (r: CommandName)
        ensures
            r == (match self {
                ClientCommand::SendMessage(_) => CommandName::SendMessage,
                ClientCommand::ChangeSettings(_) => CommandName::ChangeSettings,
            }),
    {
        match self {
            ClientCommand::SendMessage(_) => CommandName::SendMessage,
            ClientCommand::ChangeSettings(_) => CommandName::ChangeSettings,
        }
    }
}

} // verus!
