//! Decoding: from wire text to protocol values.
//!
//! The decoding model is a deterministic recursive-descent grammar over
//! `Seq<char>`, written as specification functions; the executable decoders
//! are proved to return exactly what the model says.  The grammar accepts
//! what the wire partner may send: arbitrary whitespace, object members in
//! any order, unknown members (skipped), and the full JSON string escapes.

use vstd::prelude::*;
use vstd::string::StrSliceExecFns;

use crate::error::{DecodeError, DecodeErrorV};
use crate::json::{
    chars_eq_lit, chars_to_string, is_digit, parse_digits, parse_lit, parse_number,
    parse_number_x, parse_strchars, parse_strchars_x, skip_ws, str_to_chars, ws_to, SKIP_DEPTH,
};
use crate::protocol::{
    map_keys_distinct, ClientCommand, ClientCommandV, EndOfLine, MiddlewareCommand,
    MonitorModelState, MonitorModelStateV, MonitorSettings, MonitorSettingsV,
    PluggableMonitorSetting, PluggableMonitorSettingV, PluggableMonitorSettings,
};

verus! {

// ---------------------------------------------------------------------------
// skipping arbitrary values
// ---------------------------------------------------------------------------

/// The rest after leading digits.
pub open spec fn skip_digits(s: Seq<char>) -> Seq<char> {
    parse_digits(s, 0).1
}

/// The rest after an optional fraction part.
pub open spec fn skip_frac(s: Seq<char>) -> Option<Seq<char>> {
    if s.len() > 0 && s[0] == '.' {
        if s.len() > 1 && is_digit(s[1]) {
            Some(skip_digits(s.skip(1)))
        } else {
            None
        }
    } else {
        Some(s)
    }
}

/// The rest after an optional exponent part.
pub open spec fn skip_exp(s: Seq<char>) -> Option<Seq<char>> {
    if s.len() > 0 && (s[0] == 'e' || s[0] == 'E') {
        let t = if s.len() > 1 && (s[1] == '+' || s[1] == '-') {
            s.skip(2)
        } else {
            s.skip(1)
        };
        if t.len() > 0 && is_digit(t[0]) {
            Some(skip_digits(t))
        } else {
            None
        }
    } else {
        Some(s)
    }
}

/// The rest after a complete JSON number.
pub open spec fn skip_number(s: Seq<char>) -> Option<Seq<char>> {
    let t = if s.len() > 0 && s[0] == '-' {
        s.skip(1)
    } else {
        s
    };
    if t.len() > 0 && is_digit(t[0]) {
        if t[0] == '0' && t.len() > 1 && is_digit(t[1]) {
            None
        } else {
            match skip_frac(skip_digits(t)) {
                Some(u) => skip_exp(u),
                None => None,
            }
        }
    } else {
        None
    }
}

/// The rest after one arbitrary JSON value, with a nesting budget `d`.
pub open spec fn skip_value(s: Seq<char>, d: nat) -> Option<Seq<char>>
    decreases d, s.len(), 0int,
{
    if s.len() == 0 {
        None
    } else if s[0] == '"' {
        match parse_strchars(s.skip(1)) {
            Some(p) => Some(p.1),
            None => None,
        }
    } else if s[0] == '{' {
        let t = skip_ws(s.skip(1));
        if t.len() == 0 {
            None
        } else if t[0] == '}' {
            Some(t.skip(1))
        } else if d == 0 {
            None
        } else {
            skip_obj_members(t, (d - 1) as nat)
        }
    } else if s[0] == '[' {
        let t = skip_ws(s.skip(1));
        if t.len() == 0 {
            None
        } else if t[0] == ']' {
            Some(t.skip(1))
        } else if d == 0 {
            None
        } else {
            skip_arr_items(t, (d - 1) as nat)
        }
    } else if s[0] == 't' {
        parse_lit(s, "true"@)
    } else if s[0] == 'f' {
        parse_lit(s, "false"@)
    } else if s[0] == 'n' {
        parse_lit(s, "null"@)
    } else if s[0] == '-' || is_digit(s[0]) {
        skip_number(s)
    } else {
        None
    }
}

/// The rest after `key : value ( , key : value )* }`, with `s` at a key.
pub open spec fn skip_obj_members(s: Seq<char>, d: nat) -> Option<Seq<char>>
    decreases d, s.len(), 1int,
{
    if s.len() == 0 || s[0] != '"' {
        None
    } else {
        match parse_strchars(s.skip(1)) {
            None => None,
            Some(p) => {
                let r2 = skip_ws(p.1);
                if r2.len() == 0 || r2[0] != ':' {
                    None
                } else {
                    let r3 = skip_ws(r2.skip(1));
                    if r3.len() >= s.len() {
                        None
                    } else {
                        match skip_value(r3, d) {
                            None => None,
                            Some(r4) => {
                                let r5 = skip_ws(r4);
                                if r5.len() == 0 {
                                    None
                                } else if r5[0] == '}' {
                                    Some(r5.skip(1))
                                } else if r5[0] == ',' {
                                    let r6 = skip_ws(r5.skip(1));
                                    if r6.len() < s.len() {
                                        skip_obj_members(r6, d)
                                    } else {
                                        None
                                    }
                                } else {
                                    None
                                }
                            },
                        }
                    }
                }
            },
        }
    }
}

/// The rest after `value ( , value )* ]`, with `s` at a value.
pub open spec fn skip_arr_items(s: Seq<char>, d: nat) -> Option<Seq<char>>
    decreases d, s.len(), 1int,
{
    if s.len() == 0 {
        None
    } else {
        match skip_value(s, d) {
            None => None,
            Some(r1) => {
                let r2 = skip_ws(r1);
                if r2.len() == 0 {
                    None
                } else if r2[0] == ']' {
                    Some(r2.skip(1))
                } else if r2[0] == ',' {
                    let r3 = skip_ws(r2.skip(1));
                    if r3.len() < s.len() {
                        skip_arr_items(r3, d)
                    } else {
                        None
                    }
                } else {
                    None
                }
            },
        }
    }
}

// ---------------------------------------------------------------------------
// typed scalar values
// ---------------------------------------------------------------------------

/// A JSON string token: the decoded content and the rest.
pub open spec fn parse_json_string(s: Seq<char>) -> Option<(Seq<char>, Seq<char>)> {
    if s.len() > 0 && s[0] == '"' {
        parse_strchars(s.skip(1))
    } else {
        None
    }
}

/// A JSON boolean.
pub open spec fn parse_bool(s: Seq<char>) -> Option<(bool, Seq<char>)> {
    match parse_lit(s, "true"@) {
        Some(r) => Some((true, r)),
        None => match parse_lit(s, "false"@) {
            Some(r) => Some((false, r)),
            None => None,
        },
    }
}

/// A nullable boolean member value.
pub open spec fn parse_opt_bool(s: Seq<char>) -> Option<(Option<bool>, Seq<char>)> {
    match parse_lit(s, "null"@) {
        Some(r) => Some((None, r)),
        None => match parse_bool(s) {
            Some(p) => Some((Some(p.0), p.1)),
            None => None,
        },
    }
}

/// A nullable string member value.
pub open spec fn parse_opt_string(s: Seq<char>) -> Option<(Option<Seq<char>>, Seq<char>)> {
    match parse_lit(s, "null"@) {
        Some(r) => Some((None, r)),
        None => match parse_json_string(s) {
            Some(p) => Some((Some(p.0), p.1)),
            None => None,
        },
    }
}

/// A nullable line-ending member value: a string that must be one of the
/// four markers.
pub open spec fn parse_opt_eol(s: Seq<char>) -> Option<(Option<EndOfLine>, Seq<char>)> {
    match parse_lit(s, "null"@) {
        Some(r) => Some((None, r)),
        None => match parse_json_string(s) {
            Some(p) => match EndOfLine::spec_decode(p.0) {
                Some(e) => Some((Some(e), p.1)),
                None => None,
            },
            None => None,
        },
    }
}

/// A nullable port member value: an unsigned decimal that must fit in a
/// `u16`.
pub open spec fn parse_opt_port(s: Seq<char>) -> Option<(Option<u16>, Seq<char>)> {
    match parse_lit(s, "null"@) {
        Some(r) => Some((None, r)),
        None => match parse_number(s) {
            Some(p) => if p.0 <= 65535 {
                Some((Some(p.0 as u16), p.1))
            } else {
                None
            },
            None => None,
        },
    }
}

/// A nullable setting-type member value: a string that must be `"enum"`.
pub open spec fn parse_opt_label_type(s: Seq<char>) -> Option<
    (Option<crate::protocol::LabelType>, Seq<char>),
> {
    match parse_lit(s, "null"@) {
        Some(r) => Some((None, r)),
        None => match parse_json_string(s) {
            Some(p) => if p.0 == "enum"@ {
                Some((Some(crate::protocol::LabelType::Enum), p.1))
            } else {
                None
            },
            None => None,
        },
    }
}

// ---------------------------------------------------------------------------
// arrays of strings
// ---------------------------------------------------------------------------

/// The items of a string array after the opening bracket, accumulating onto
/// `acc`; `s` is at a value.
pub open spec fn scan_str_items(s: Seq<char>, acc: Seq<Seq<char>>) -> Option<
    (Seq<Seq<char>>, Seq<char>),
>
    decreases s.len(),
{
    match parse_json_string(s) {
        None => None,
        Some((v, r1)) => {
            let r2 = skip_ws(r1);
            if r2.len() == 0 {
                None
            } else if r2[0] == ']' {
                Some((acc.push(v), r2.skip(1)))
            } else if r2[0] == ',' {
                let r3 = skip_ws(r2.skip(1));
                if r3.len() < s.len() {
                    scan_str_items(r3, acc.push(v))
                } else {
                    None
                }
            } else {
                None
            }
        },
    }
}

/// A JSON array of strings.
pub open spec fn parse_str_array(s: Seq<char>) -> Option<(Seq<Seq<char>>, Seq<char>)> {
    if s.len() > 0 && s[0] == '[' {
        let t = skip_ws(s.skip(1));
        if t.len() > 0 && t[0] == ']' {
            Some((Seq::empty(), t.skip(1)))
        } else {
            scan_str_items(t, Seq::empty())
        }
    } else {
        None
    }
}

// ---------------------------------------------------------------------------
// pluggable monitor settings
// ---------------------------------------------------------------------------

/// Scan accumulator for a pluggable setting object.
#[verifier::ext_equal]
pub struct StAcc {
    pub seen_id: bool,
    pub id: Option<Seq<char>>,
    pub seen_label: bool,
    pub label: Option<Seq<char>>,
    pub seen_type: bool,
    pub type_: Option<crate::protocol::LabelType>,
    pub seen_values: bool,
    pub values: Seq<Seq<char>>,
    pub seen_sel: bool,
    pub sel: Seq<char>,
}

pub open spec fn st_acc_init() -> StAcc {
    StAcc {
        seen_id: false,
        id: None,
        seen_label: false,
        label: None,
        seen_type: false,
        type_: None,
        seen_values: false,
        values: Seq::empty(),
        seen_sel: false,
        sel: Seq::empty(),
    }
}

/// `selectedValue` is required; everything else defaults.
pub open spec fn st_finish(a: StAcc) -> Option<PluggableMonitorSettingV> {
    if a.seen_sel {
        Some(
            PluggableMonitorSettingV {
                id: a.id,
                label: a.label,
                type_: a.type_,
                values: a.values,
                selected_value: a.sel,
            },
        )
    } else {
        None
    }
}

/// Dispatch one member of a pluggable setting object on its key.
#[verifier::opaque]
pub open spec fn scan_setting_member(key: Seq<char>, s: Seq<char>, a: StAcc) -> Option<
    (StAcc, Seq<char>),
> {
    if key == "id"@ {
        if a.seen_id {
            None
        } else {
            match parse_opt_string(s) {
                Some((v, r)) => Some((StAcc { seen_id: true, id: v, ..a }, r)),
                None => None,
            }
        }
    } else if key == "label"@ {
        if a.seen_label {
            None
        } else {
            match parse_opt_string(s) {
                Some((v, r)) => Some((StAcc { seen_label: true, label: v, ..a }, r)),
                None => None,
            }
        }
    } else if key == "type"@ {
        if a.seen_type {
            None
        } else {
            match parse_opt_label_type(s) {
                Some((v, r)) => Some((StAcc { seen_type: true, type_: v, ..a }, r)),
                None => None,
            }
        }
    } else if key == "values"@ {
        if a.seen_values {
            None
        } else {
            match parse_str_array(s) {
                Some((v, r)) => Some((StAcc { seen_values: true, values: v, ..a }, r)),
                None => None,
            }
        }
    } else if key == "selectedValue"@ {
        if a.seen_sel {
            None
        } else {
            match parse_json_string(s) {
                Some((v, r)) => Some((StAcc { seen_sel: true, sel: v, ..a }, r)),
                None => None,
            }
        }
    } else {
        match skip_value(s, SKIP_DEPTH as nat) {
            Some(r) => Some((a, r)),
            None => None,
        }
    }
}

/// The members of a pluggable setting object; `s` is at a key.
#[verifier::opaque]
pub open spec fn scan_setting(s: Seq<char>, a: StAcc) -> Option<(StAcc, Seq<char>)>
    decreases s.len(),
{
    if s.len() == 0 || s[0] != '"' {
        None
    } else {
        match parse_strchars(s.skip(1)) {
            None => None,
            Some((key, r1)) => {
                let r2 = skip_ws(r1);
                if r2.len() == 0 || r2[0] != ':' {
                    None
                } else {
                    let r3 = skip_ws(r2.skip(1));
                    match scan_setting_member(key, r3, a) {
                        None => None,
                        Some((a2, r4)) => {
                            let r5 = skip_ws(r4);
                            if r5.len() == 0 {
                                None
                            } else if r5[0] == '}' {
                                Some((a2, r5.skip(1)))
                            } else if r5[0] == ',' {
                                let r6 = skip_ws(r5.skip(1));
                                if r6.len() < s.len() {
                                    scan_setting(r6, a2)
                                } else {
                                    None
                                }
                            } else {
                                None
                            }
                        },
                    }
                }
            },
        }
    }
}

/// A pluggable setting object.
pub open spec fn parse_setting(s: Seq<char>) -> Option<(PluggableMonitorSettingV, Seq<char>)> {
    if s.len() > 0 && s[0] == '{' {
        let t = skip_ws(s.skip(1));
        if t.len() > 0 && t[0] == '}' {
            match st_finish(st_acc_init()) {
                Some(v) => Some((v, t.skip(1))),
                None => None,
            }
        } else {
            match scan_setting(t, st_acc_init()) {
                Some((a, r)) => match st_finish(a) {
                    Some(v) => Some((v, r)),
                    None => None,
                },
                None => None,
            }
        }
    } else {
        None
    }
}

/// The position of `key` in the accumulated entries, or a negative value.
pub open spec fn key_index(m: Seq<(Seq<char>, PluggableMonitorSettingV)>, key: Seq<char>) -> int
    decreases m.len(),
{
    if m.len() == 0 {
        -1
    } else if m[0].0 == key {
        0
    } else {
        let r = key_index(m.skip(1), key);
        if r < 0 {
            -1
        } else {
            r + 1
        }
    }
}

/// Map insertion: a later binding of the same key replaces the earlier one
/// in place.
pub open spec fn map_insert(
    m: Seq<(Seq<char>, PluggableMonitorSettingV)>,
    key: Seq<char>,
    v: PluggableMonitorSettingV,
) -> Seq<(Seq<char>, PluggableMonitorSettingV)> {
    let i = key_index(m, key);
    if i < 0 {
        m.push((key, v))
    } else {
        m.update(i, (key, v))
    }
}

/// The members of the settings map; `s` is at a key.
pub open spec fn scan_map(
    s: Seq<char>,
    acc: Seq<(Seq<char>, PluggableMonitorSettingV)>,
) -> Option<(Seq<(Seq<char>, PluggableMonitorSettingV)>, Seq<char>)>
    decreases s.len(),
{
    if s.len() == 0 || s[0] != '"' {
        None
    } else {
        match parse_strchars(s.skip(1)) {
            None => None,
            Some((key, r1)) => {
                let r2 = skip_ws(r1);
                if r2.len() == 0 || r2[0] != ':' {
                    None
                } else {
                    let r3 = skip_ws(r2.skip(1));
                    match parse_setting(r3) {
                        None => None,
                        Some((v, r4)) => {
                            let acc2 = map_insert(acc, key, v);
                            let r5 = skip_ws(r4);
                            if r5.len() == 0 {
                                None
                            } else if r5[0] == '}' {
                                Some((acc2, r5.skip(1)))
                            } else if r5[0] == ',' {
                                let r6 = skip_ws(r5.skip(1));
                                if r6.len() < s.len() {
                                    scan_map(r6, acc2)
                                } else {
                                    None
                                }
                            } else {
                                None
                            }
                        },
                    }
                }
            },
        }
    }
}

/// The settings map object.
pub open spec fn parse_map(s: Seq<char>) -> Option<
    (Seq<(Seq<char>, PluggableMonitorSettingV)>, Seq<char>),
> {
    if s.len() > 0 && s[0] == '{' {
        let t = skip_ws(s.skip(1));
        if t.len() > 0 && t[0] == '}' {
            Some((Seq::empty(), t.skip(1)))
        } else {
            scan_map(t, Seq::empty())
        }
    } else {
        None
    }
}

// ---------------------------------------------------------------------------
// the UI state object
// ---------------------------------------------------------------------------

/// Scan accumulator for the UI state object.
#[verifier::ext_equal]
pub struct MsAcc {
    pub seen_autoscroll: bool,
    pub autoscroll: Option<bool>,
    pub seen_timestamp: bool,
    pub timestamp: Option<bool>,
    pub seen_line_ending: bool,
    pub line_ending: Option<EndOfLine>,
    pub seen_interpolate: bool,
    pub interpolate: Option<bool>,
    pub seen_dark_theme: bool,
    pub dark_theme: Option<bool>,
    pub seen_ws_port: bool,
    pub ws_port: Option<u16>,
    pub seen_serial_port: bool,
    pub serial_port: Option<Seq<char>>,
    pub seen_connected: bool,
    pub connected: Option<bool>,
    pub seen_generate: bool,
    pub generate: bool,
}

pub open spec fn ms_acc_init() -> MsAcc {
    MsAcc {
        seen_autoscroll: false,
        autoscroll: None,
        seen_timestamp: false,
        timestamp: None,
        seen_line_ending: false,
        line_ending: None,
        seen_interpolate: false,
        interpolate: None,
        seen_dark_theme: false,
        dark_theme: None,
        seen_ws_port: false,
        ws_port: None,
        seen_serial_port: false,
        serial_port: None,
        seen_connected: false,
        connected: None,
        seen_generate: false,
        generate: false,
    }
}

/// Every field defaults; `generate` defaults to `false`.
pub open spec fn ms_finish(a: MsAcc) -> MonitorModelStateV {
    MonitorModelStateV {
        autoscroll: a.autoscroll,
        timestamp: a.timestamp,
        line_ending: a.line_ending,
        interpolate: a.interpolate,
        dark_theme: a.dark_theme,
        ws_port: a.ws_port,
        serial_port: a.serial_port,
        connected: a.connected,
        generate: a.generate,
    }
}

/// Dispatch one member of the UI state object on its key.
#[verifier::opaque]
pub open spec fn scan_model_member(key: Seq<char>, s: Seq<char>, a: MsAcc) -> Option<
    (MsAcc, Seq<char>),
> {
    if key == "autoscroll"@ {
        if a.seen_autoscroll {
            None
        } else {
            match parse_opt_bool(s) {
                Some((v, r)) => Some((MsAcc { seen_autoscroll: true, autoscroll: v, ..a }, r)),
                None => None,
            }
        }
    } else if key == "timestamp"@ {
        if a.seen_timestamp {
            None
        } else {
            match parse_opt_bool(s) {
                Some((v, r)) => Some((MsAcc { seen_timestamp: true, timestamp: v, ..a }, r)),
                None => None,
            }
        }
    } else if key == "lineEnding"@ {
        if a.seen_line_ending {
            None
        } else {
            match parse_opt_eol(s) {
                Some((v, r)) => Some((MsAcc { seen_line_ending: true, line_ending: v, ..a }, r)),
                None => None,
            }
        }
    } else if key == "interpolate"@ {
        if a.seen_interpolate {
            None
        } else {
            match parse_opt_bool(s) {
                Some((v, r)) => Some((MsAcc { seen_interpolate: true, interpolate: v, ..a }, r)),
                None => None,
            }
        }
    } else if key == "darkTheme"@ {
        if a.seen_dark_theme {
            None
        } else {
            match parse_opt_bool(s) {
                Some((v, r)) => Some((MsAcc { seen_dark_theme: true, dark_theme: v, ..a }, r)),
                None => None,
            }
        }
    } else if key == "wsPort"@ {
        if a.seen_ws_port {
            None
        } else {
            match parse_opt_port(s) {
                Some((v, r)) => Some((MsAcc { seen_ws_port: true, ws_port: v, ..a }, r)),
                None => None,
            }
        }
    } else if key == "serialPort"@ {
        if a.seen_serial_port {
            None
        } else {
            match parse_opt_string(s) {
                Some((v, r)) => Some((MsAcc { seen_serial_port: true, serial_port: v, ..a }, r)),
                None => None,
            }
        }
    } else if key == "connected"@ {
        if a.seen_connected {
            None
        } else {
            match parse_opt_bool(s) {
                Some((v, r)) => Some((MsAcc { seen_connected: true, connected: v, ..a }, r)),
                None => None,
            }
        }
    } else if key == "generate"@ {
        if a.seen_generate {
            None
        } else {
            match parse_bool(s) {
                Some((v, r)) => Some((MsAcc { seen_generate: true, generate: v, ..a }, r)),
                None => None,
            }
        }
    } else {
        match skip_value(s, SKIP_DEPTH as nat) {
            Some(r) => Some((a, r)),
            None => None,
        }
    }
}

/// The members of the UI state object; `s` is at a key.
#[verifier::opaque]
pub open spec fn scan_model(s: Seq<char>, a: MsAcc) -> Option<(MsAcc, Seq<char>)>
    decreases s.len(),
{
    if s.len() == 0 || s[0] != '"' {
        None
    } else {
        match parse_strchars(s.skip(1)) {
            None => None,
            Some((key, r1)) => {
                let r2 = skip_ws(r1);
                if r2.len() == 0 || r2[0] != ':' {
                    None
                } else {
                    let r3 = skip_ws(r2.skip(1));
                    match scan_model_member(key, r3, a) {
                        None => None,
                        Some((a2, r4)) => {
                            let r5 = skip_ws(r4);
                            if r5.len() == 0 {
                                None
                            } else if r5[0] == '}' {
                                Some((a2, r5.skip(1)))
                            } else if r5[0] == ',' {
                                let r6 = skip_ws(r5.skip(1));
                                if r6.len() < s.len() {
                                    scan_model(r6, a2)
                                } else {
                                    None
                                }
                            } else {
                                None
                            }
                        },
                    }
                }
            },
        }
    }
}

/// The UI state object.
pub open spec fn parse_model(s: Seq<char>) -> Option<(MonitorModelStateV, Seq<char>)> {
    if s.len() > 0 && s[0] == '{' {
        let t = skip_ws(s.skip(1));
        if t.len() > 0 && t[0] == '}' {
            Some((ms_finish(ms_acc_init()), t.skip(1)))
        } else {
            match scan_model(t, ms_acc_init()) {
                Some((a, r)) => Some((ms_finish(a), r)),
                None => None,
            }
        }
    } else {
        None
    }
}

// ---------------------------------------------------------------------------
// the settings payload object
// ---------------------------------------------------------------------------

/// Scan accumulator for the settings payload object.
#[verifier::ext_equal]
pub struct SetAcc {
    pub seen_pms: bool,
    pub pms: Option<Seq<(Seq<char>, PluggableMonitorSettingV)>>,
    pub seen_mus: bool,
    pub mus: Option<MonitorModelStateV>,
}

pub open spec fn set_acc_init() -> SetAcc {
    SetAcc { seen_pms: false, pms: None, seen_mus: false, mus: None }
}

pub open spec fn set_finish(a: SetAcc) -> MonitorSettingsV {
    MonitorSettingsV { pluggable_monitor_settings: a.pms, monitor_ui_settings: a.mus }
}

/// Dispatch one member of the settings payload on its key.
#[verifier::opaque]
pub open spec fn scan_settings_member(key: Seq<char>, s: Seq<char>, a: SetAcc) -> Option<
    (SetAcc, Seq<char>),
> {
    if key == "pluggableMonitorSettings"@ {
        if a.seen_pms {
            None
        } else {
            match parse_lit(s, "null"@) {
                Some(r) => Some((SetAcc { seen_pms: true, pms: None, ..a }, r)),
                None => match parse_map(s) {
                    Some((m, r)) => Some((SetAcc { seen_pms: true, pms: Some(m), ..a }, r)),
                    None => None,
                },
            }
        }
    } else if key == "monitorUISettings"@ {
        if a.seen_mus {
            None
        } else {
            match parse_lit(s, "null"@) {
                Some(r) => Some((SetAcc { seen_mus: true, mus: None, ..a }, r)),
                None => match parse_model(s) {
                    Some((m, r)) => Some((SetAcc { seen_mus: true, mus: Some(m), ..a }, r)),
                    None => None,
                },
            }
        }
    } else {
        match skip_value(s, SKIP_DEPTH as nat) {
            Some(r) => Some((a, r)),
            None => None,
        }
    }
}

/// The members of the settings payload; `s` is at a key.
#[verifier::opaque]
pub open spec fn scan_settings(s: Seq<char>, a: SetAcc) -> Option<(SetAcc, Seq<char>)>
    decreases s.len(),
{
    if s.len() == 0 || s[0] != '"' {
        None
    } else {
        match parse_strchars(s.skip(1)) {
            None => None,
            Some((key, r1)) => {
                let r2 = skip_ws(r1);
                if r2.len() == 0 || r2[0] != ':' {
                    None
                } else {
                    let r3 = skip_ws(r2.skip(1));
                    match scan_settings_member(key, r3, a) {
                        None => None,
                        Some((a2, r4)) => {
                            let r5 = skip_ws(r4);
                            if r5.len() == 0 {
                                None
                            } else if r5[0] == '}' {
                                Some((a2, r5.skip(1)))
                            } else if r5[0] == ',' {
                                let r6 = skip_ws(r5.skip(1));
                                if r6.len() < s.len() {
                                    scan_settings(r6, a2)
                                } else {
                                    None
                                }
                            } else {
                                None
                            }
                        },
                    }
                }
            },
        }
    }
}

/// The settings payload object.
pub open spec fn parse_settings_obj(s: Seq<char>) -> Option<(MonitorSettingsV, Seq<char>)> {
    if s.len() > 0 && s[0] == '{' {
        let t = skip_ws(s.skip(1));
        if t.len() > 0 && t[0] == '}' {
            Some((set_finish(set_acc_init()), t.skip(1)))
        } else {
            match scan_settings(t, set_acc_init()) {
                Some((a, r)) => Some((set_finish(a), r)),
                None => None,
            }
        }
    } else {
        None
    }
}

// ---------------------------------------------------------------------------
// the envelope
// ---------------------------------------------------------------------------

/// What the `data` member of an envelope held.
#[verifier::ext_equal]
pub enum DataSeen {
    /// No `data` member seen yet.
    DNone,
    /// A JSON string.
    DStr(Seq<char>),
    /// An object that parsed as a settings payload.
    DSettings(MonitorSettingsV),
    /// Any other well-formed value, including an object that is not a
    /// settings payload.
    DOther,
}

/// Scan accumulator for an envelope object.
#[verifier::ext_equal]
pub struct EnvAcc {
    pub seen_cmd: bool,
    pub cmd: Seq<char>,
    pub data: DataSeen,
}

pub open spec fn env_acc_init() -> EnvAcc {
    EnvAcc { seen_cmd: false, cmd: Seq::empty(), data: DataSeen::DNone }
}

/// Dispatch one member of an envelope on its key.  The `data` member is
/// parsed as a settings payload when it can be; its text is skipped either
/// way, so the tag decides later what shape was required.
#[verifier::opaque]
pub open spec fn scan_env_member(key: Seq<char>, s: Seq<char>, a: EnvAcc) -> Option<
    (EnvAcc, Seq<char>),
> {
    if key == "command"@ {
        if a.seen_cmd {
            None
        } else {
            match parse_json_string(s) {
                Some((c, r)) => Some((EnvAcc { seen_cmd: true, cmd: c, ..a }, r)),
                None => None,
            }
        }
    } else if key == "data"@ {
        if !(a.data is DNone) {
            None
        } else if s.len() > 0 && s[0] == '"' {
            match parse_strchars(s.skip(1)) {
                Some((v, r)) => Some((EnvAcc { data: DataSeen::DStr(v), ..a }, r)),
                None => None,
            }
        } else if s.len() > 0 && s[0] == '{' {
            match parse_settings_obj(s) {
                Some((v, r)) => Some((EnvAcc { data: DataSeen::DSettings(v), ..a }, r)),
                None => match skip_value(s, SKIP_DEPTH as nat) {
                    Some(r) => Some((EnvAcc { data: DataSeen::DOther, ..a }, r)),
                    None => None,
                },
            }
        } else {
            match skip_value(s, SKIP_DEPTH as nat) {
                Some(r) => Some((EnvAcc { data: DataSeen::DOther, ..a }, r)),
                None => None,
            }
        }
    } else {
        match skip_value(s, SKIP_DEPTH as nat) {
            Some(r) => Some((a, r)),
            None => None,
        }
    }
}

/// The members of an envelope object; `s` is at a key.
#[verifier::opaque]
pub open spec fn scan_env(s: Seq<char>, a: EnvAcc) -> Option<(EnvAcc, Seq<char>)>
    decreases s.len(),
{
    if s.len() == 0 || s[0] != '"' {
        None
    } else {
        match parse_strchars(s.skip(1)) {
            None => None,
            Some((key, r1)) => {
                let r2 = skip_ws(r1);
                if r2.len() == 0 || r2[0] != ':' {
                    None
                } else {
                    let r3 = skip_ws(r2.skip(1));
                    match scan_env_member(key, r3, a) {
                        None => None,
                        Some((a2, r4)) => {
                            let r5 = skip_ws(r4);
                            if r5.len() == 0 {
                                None
                            } else if r5[0] == '}' {
                                Some((a2, r5.skip(1)))
                            } else if r5[0] == ',' {
                                let r6 = skip_ws(r5.skip(1));
                                if r6.len() < s.len() {
                                    scan_env(r6, a2)
                                } else {
                                    None
                                }
                            } else {
                                None
                            }
                        },
                    }
                }
            },
        }
    }
}

/// The envelope of a whole frame: accepts exactly one object with optional
/// surrounding whitespace and nothing after it.
pub open spec fn parse_envelope(s: Seq<char>) -> Option<EnvAcc> {
    let t = skip_ws(s);
    if t.len() == 0 || t[0] != '{' {
        None
    } else {
        let u = skip_ws(t.skip(1));
        if u.len() > 0 && u[0] == '}' {
            if skip_ws(u.skip(1)).len() == 0 {
                Some(env_acc_init())
            } else {
                None
            }
        } else {
            match scan_env(u, env_acc_init()) {
                Some((a, r)) => if skip_ws(r).len() == 0 {
                    Some(a)
                } else {
                    None
                },
                None => None,
            }
        }
    }
}

/// What decoding a client command from a frame's text yields.
pub open spec fn decode_inbound_spec(s: Seq<char>) -> Result<ClientCommandV, DecodeErrorV> {
    match parse_envelope(s) {
        None => Err(DecodeErrorV::Json),
        Some(a) => {
            if !a.seen_cmd || a.data is DNone {
                Err(DecodeErrorV::Json)
            } else if a.cmd == "SEND_MESSAGE"@ {
                match a.data {
                    DataSeen::DStr(m) => Ok(ClientCommandV::SendMessage(m)),
                    _ => Err(DecodeErrorV::Json),
                }
            } else if a.cmd == "CHANGE_SETTINGS"@ {
                match a.data {
                    DataSeen::DSettings(v) => Ok(ClientCommandV::ChangeSettings(v)),
                    _ => Err(DecodeErrorV::Json),
                }
            } else {
                Err(DecodeErrorV::UnknownCommand(a.cmd))
            }
        },
    }
}

/// What decoding a settings payload alone from a text yields.
pub open spec fn decode_settings_spec(s: Seq<char>) -> Result<MonitorSettingsV, DecodeErrorV> {
    let t = skip_ws(s);
    match parse_settings_obj(t) {
        Some((v, r)) => if skip_ws(r).len() == 0 {
            Ok(v)
        } else {
            Err(DecodeErrorV::Json)
        },
        None => Err(DecodeErrorV::Json),
    }
}

/// What decoding a middleware settings notification from a frame's text
/// yields.
pub open spec fn decode_middleware_spec(s: Seq<char>) -> Result<MonitorSettingsV, DecodeErrorV> {
    match parse_envelope(s) {
        None => Err(DecodeErrorV::Json),
        Some(a) => {
            if !a.seen_cmd || a.data is DNone {
                Err(DecodeErrorV::Json)
            } else if a.cmd == "ON_SETTINGS_DID_CHANGE"@ {
                match a.data {
                    DataSeen::DSettings(v) => Ok(v),
                    _ => Err(DecodeErrorV::Json),
                }
            } else if a.cmd == "SEND_MESSAGE"@ || a.cmd == "CHANGE_SETTINGS"@ {
                Err(DecodeErrorV::WrongCommand(a.cmd))
            } else {
                Err(DecodeErrorV::Json)
            }
        },
    }
}

// ---------------------------------------------------------------------------
// executable decoders: scalar values
// ---------------------------------------------------------------------------

proof fn lemma_parse_digits_rest(s: Seq<char>, a: nat, b: nat)
    ensures
        parse_digits(s, a).1 == parse_digits(s, b).1,
    decreases s.len(),
{
    if s.len() > 0 && is_digit(s[0]) {
        lemma_parse_digits_rest(
            s.skip(1),
            a * 10 + crate::json::digit_val(s[0]),
            b * 10 + crate::json::digit_val(s[0]),
        );
    }
}

/// Executable twin of [`skip_digits`].
fn digits_to(cs: &Vec<char>, i: usize) -> (j: usize)
    requires
        i <= cs@.len(),
    ensures
        i <= j <= cs@.len(),
        cs@.skip(j as int) == skip_digits(cs@.skip(i as int)),
{
    let mut j = i;
    let n = cs.len();
    while j < n && crate::json::digit_char(cs[j])
        invariant
            i <= j <= cs@.len(),
            n == cs@.len(),
            skip_digits(cs@.skip(i as int)) == skip_digits(cs@.skip(j as int)),
        decreases cs@.len() - j,
    {
        proof {
            let s = cs@.skip(j as int);
            assert(s[0] == cs@[j as int]);
            assert(s.skip(1) =~= cs@.skip(j as int + 1));
            lemma_parse_digits_rest(s.skip(1), 0, crate::json::digit_val(s[0]));
        }
        j = j + 1;
    }
    proof {
        assert(skip_digits(cs@.skip(j as int)) == cs@.skip(j as int));
    }
    j
}

/// Executable twin of [`parse_json_string`], returning the content.
fn parse_json_string_x(cs: &Vec<char>, i: usize) -> (r: Option<(Vec<char>, usize)>)
    requires
        i <= cs@.len(),
    ensures
        match r {
            Some(p) => {
                &&& i <= p.1 <= cs@.len()
                &&& parse_json_string(cs@.skip(i as int)) == Some((p.0@, cs@.skip(p.1 as int)))
            },
            None => parse_json_string(cs@.skip(i as int)) is None,
        },
{
    if i == cs.len() || cs[i] != '"' {
        proof {
            if i < cs@.len() {
                assert(cs@.skip(i as int)[0] == cs@[i as int]);
            }
        }
        return None;
    }
    proof {
        assert(cs@.skip(i as int)[0] == cs@[i as int]);
        assert(cs@.skip(i as int).skip(1) =~= cs@.skip(i as int + 1));
    }
    parse_strchars_x(cs, i + 1)
}

/// Executable twin of [`parse_bool`].
fn parse_bool_x(cs: &Vec<char>, i: usize) -> (r: Option<(bool, usize)>)
    requires
        i <= cs@.len(),
    ensures
        match r {
            Some(p) => {
                &&& i <= p.1 <= cs@.len()
                &&& parse_bool(cs@.skip(i as int)) == Some((p.0, cs@.skip(p.1 as int)))
            },
            None => parse_bool(cs@.skip(i as int)) is None,
        },
{
    match crate::json::eat_lit(cs, i, "true") {
        Some(j) => Some((true, j)),
        None => match crate::json::eat_lit(cs, i, "false") {
            Some(j) => Some((false, j)),
            None => None,
        },
    }
}

/// Executable twin of [`parse_opt_bool`].
fn parse_opt_bool_x(cs: &Vec<char>, i: usize) -> (r: Option<(Option<bool>, usize)>)
    requires
        i <= cs@.len(),
    ensures
        match r {
            Some(p) => {
                &&& i <= p.1 <= cs@.len()
                &&& parse_opt_bool(cs@.skip(i as int)) == Some((p.0, cs@.skip(p.1 as int)))
            },
            None => parse_opt_bool(cs@.skip(i as int)) is None,
        },
{
    match crate::json::eat_lit(cs, i, "null") {
        Some(j) => Some((None, j)),
        None => match parse_bool_x(cs, i) {
            Some((b, j)) => Some((Some(b), j)),
            None => None,
        },
    }
}

/// Executable twin of [`parse_opt_string`].
fn parse_opt_string_x(cs: &Vec<char>, i: usize) -> (r: Option<(Option<String>, usize)>)
    requires
        i <= cs@.len(),
    ensures
        match r {
            Some(p) => {
                &&& i <= p.1 <= cs@.len()
                &&& parse_opt_string(cs@.skip(i as int)) == Some(
                    (
                        match p.0 {
                            Some(ref s) => Some(s@),
                            None => None,
                        },
                        cs@.skip(p.1 as int),
                    ),
                )
            },
            None => parse_opt_string(cs@.skip(i as int)) is None,
        },
{
    match crate::json::eat_lit(cs, i, "null") {
        Some(j) => Some((None, j)),
        None => match parse_json_string_x(cs, i) {
            Some((v, j)) => Some((Some(chars_to_string(&v)), j)),
            None => None,
        },
    }
}

/// Executable twin of [`parse_opt_eol`].
fn parse_opt_eol_x(cs: &Vec<char>, i: usize) -> (r: Option<(Option<EndOfLine>, usize)>)
    requires
        i <= cs@.len(),
    ensures
        match r {
            Some(p) => {
                &&& i <= p.1 <= cs@.len()
                &&& parse_opt_eol(cs@.skip(i as int)) == Some((p.0, cs@.skip(p.1 as int)))
            },
            None => parse_opt_eol(cs@.skip(i as int)) is None,
        },
{
    match crate::json::eat_lit(cs, i, "null") {
        Some(j) => Some((None, j)),
        None => match parse_json_string_x(cs, i) {
            Some((v, j)) => {
                let marker = chars_to_string(&v);
                match EndOfLine::decode(marker.as_str()) {
                    Some(e) => Some((Some(e), j)),
                    None => None,
                }
            },
            None => None,
        },
    }
}

/// Executable twin of [`parse_opt_port`].
fn parse_opt_port_x(cs: &Vec<char>, i: usize) -> (r: Option<(Option<u16>, usize)>)
    requires
        i <= cs@.len(),
    ensures
        match r {
            Some(p) => {
                &&& i <= p.1 <= cs@.len()
                &&& parse_opt_port(cs@.skip(i as int)) == Some((p.0, cs@.skip(p.1 as int)))
            },
            None => parse_opt_port(cs@.skip(i as int)) is None,
        },
{
    match crate::json::eat_lit(cs, i, "null") {
        Some(j) => Some((None, j)),
        None => match parse_number_x(cs, i) {
            Some((v, j)) => match v {
                Some(x) => if x <= 65535 {
                    Some((Some(x as u16), j))
                } else {
                    None
                },
                None => None,
            },
            None => None,
        },
    }
}

/// Executable twin of [`parse_opt_label_type`].
fn parse_opt_label_type_x(cs: &Vec<char>, i: usize) -> (r: Option<
    (Option<crate::protocol::LabelType>, usize),
>)
    requires
        i <= cs@.len(),
    ensures
        match r {
            Some(p) => {
                &&& i <= p.1 <= cs@.len()
                &&& parse_opt_label_type(cs@.skip(i as int)) == Some((p.0, cs@.skip(p.1 as int)))
            },
            None => parse_opt_label_type(cs@.skip(i as int)) is None,
        },
{
    match crate::json::eat_lit(cs, i, "null") {
        Some(j) => Some((None, j)),
        None => match parse_json_string_x(cs, i) {
            Some((v, j)) => if chars_eq_lit(&v, "enum") {
                Some((Some(crate::protocol::LabelType::Enum), j))
            } else {
                None
            },
            None => None,
        },
    }
}

// ---------------------------------------------------------------------------
// executable decoders: skipping values
// ---------------------------------------------------------------------------

/// Executable twin of [`skip_number`].
#[verifier::rlimit(60)]
#[verifier::spinoff_prover]
fn skip_number_x(cs: &Vec<char>, i: usize) -> (r: Option<usize>)
    requires
        i <= cs@.len(),
    ensures
        match r {
            Some(j) => {
                &&& i <= j <= cs@.len()
                &&& skip_number(cs@.skip(i as int)) == Some(cs@.skip(j as int))
            },
            None => skip_number(cs@.skip(i as int)) is None,
        },
{
    let ghost s = cs@.skip(i as int);
    let n = cs.len();
    let mut j = i;
    if j < n && cs[j] == '-' {
        proof {
            assert(s[0] == cs@[i as int]);
            assert(s.skip(1) =~= cs@.skip(i as int + 1));
        }
        j = j + 1;
    } else {
        proof {
            if i < cs@.len() {
                assert(s[0] == cs@[i as int]);
            }
        }
    }
    let ghost t = cs@.skip(j as int);
    if j == n || !({ let u = cs[j] as u32; 48 <= u && u <= 57 }) {
        proof {
            if j < cs@.len() {
                assert(t[0] == cs@[j as int]);
            }
        }
        return None;
    }
    proof {
        assert(t[0] == cs@[j as int]);
    }
    if cs[j] == '0' && j + 1 < n && { let u = cs[j + 1] as u32; 48 <= u && u <= 57 } {
        proof {
            assert(t[1] == cs@[j + 1]);
        }
        return None;
    }
    proof {
        if j + 1 < cs@.len() {
            assert(t[1] == cs@[j + 1]);
        }
    }
    let j2 = digits_to(cs, j);
    let ghost u = cs@.skip(j2 as int);
    // fraction part
    let mut j3 = j2;
    if j2 < n && cs[j2] == '.' {
        proof {
            assert(u[0] == cs@[j2 as int]);
            if j2 + 1 < cs@.len() {
                assert(u[1] == cs@[j2 + 1]);
            }
        }
        if j2 + 1 == n || !({ let c = cs[j2 + 1] as u32; 48 <= c && c <= 57 }) {
            return None;
        }
        proof {
            assert(u.skip(1) =~= cs@.skip(j2 as int + 1));
        }
        j3 = digits_to(cs, j2 + 1);
    } else {
        proof {
            if j2 < cs@.len() {
                assert(u[0] == cs@[j2 as int]);
            }
        }
    }
    proof {
        assert(skip_frac(u) == Some(cs@.skip(j3 as int)));
    }
    let ghost w = cs@.skip(j3 as int);
    // exponent part
    let mut j4 = j3;
    if j3 < n && (cs[j3] == 'e' || cs[j3] == 'E') {
        proof {
            assert(w[0] == cs@[j3 as int]);
            if j3 + 1 < cs@.len() {
                assert(w[1] == cs@[j3 + 1]);
            }
        }
        let mut j5 = j3 + 1;
        if j5 < n && (cs[j5] == '+' || cs[j5] == '-') {
            j5 = j5 + 1;
        }
        proof {
            assert(cs@.skip(j5 as int) =~= if w.len() > 1 && (w[1] == '+' || w[1] == '-') {
                w.skip(2)
            } else {
                w.skip(1)
            });
        }
        if j5 == n || !({ let c = cs[j5] as u32; 48 <= c && c <= 57 }) {
            proof {
                if j5 < cs@.len() {
                    assert(cs@.skip(j5 as int)[0] == cs@[j5 as int]);
                }
            }
            return None;
        }
        proof {
            assert(cs@.skip(j5 as int)[0] == cs@[j5 as int]);
        }
        j4 = digits_to(cs, j5);
    } else {
        proof {
            if j3 < cs@.len() {
                assert(w[0] == cs@[j3 as int]);
            }
        }
    }
    proof {
        assert(skip_exp(w) == Some(cs@.skip(j4 as int)));
    }
    Some(j4)
}

/// Executable twin of [`skip_value`].
#[verifier::rlimit(80)]
#[verifier::spinoff_prover]
fn skip_value_x(cs: &Vec<char>, i: usize, d: u32) -> (r: Option<usize>)
    requires
        i <= cs@.len(),
    ensures
        match r {
            Some(j) => {
                &&& i <= j <= cs@.len()
                &&& skip_value(cs@.skip(i as int), d as nat) == Some(cs@.skip(j as int))
            },
            None => skip_value(cs@.skip(i as int), d as nat) is None,
        },
    decreases d, cs@.len() - i, 0int,
{
    let ghost s = cs@.skip(i as int);
    let n = cs.len();
    if i == n {
        return None;
    }
    let c = cs[i];
    proof {
        assert(s[0] == cs@[i as int]);
        assert(s.skip(1) =~= cs@.skip(i as int + 1));
    }
    if c == '"' {
        match parse_strchars_x(cs, i + 1) {
            Some((_v, j)) => Some(j),
            None => None,
        }
    } else if c == '{' {
        let t = ws_to(cs, i + 1);
        if t == n {
            return None;
        }
        proof {
            assert(cs@.skip(t as int)[0] == cs@[t as int]);
            assert(cs@.skip(t as int).skip(1) =~= cs@.skip(t as int + 1));
        }
        if cs[t] == '}' {
            Some(t + 1)
        } else if d == 0 {
            None
        } else {
            proof {
                crate::json::lemma_skip_ws_len(cs@.skip(i as int + 1));
            }
            skip_obj_members_x(cs, t, d - 1)
        }
    } else if c == '[' {
        let t = ws_to(cs, i + 1);
        if t == n {
            return None;
        }
        proof {
            assert(cs@.skip(t as int)[0] == cs@[t as int]);
            assert(cs@.skip(t as int).skip(1) =~= cs@.skip(t as int + 1));
        }
        if cs[t] == ']' {
            Some(t + 1)
        } else if d == 0 {
            None
        } else {
            proof {
                crate::json::lemma_skip_ws_len(cs@.skip(i as int + 1));
            }
            skip_arr_items_x(cs, t, d - 1)
        }
    } else if c == 't' {
        crate::json::eat_lit(cs, i, "true")
    } else if c == 'f' {
        crate::json::eat_lit(cs, i, "false")
    } else if c == 'n' {
        crate::json::eat_lit(cs, i, "null")
    } else if c == '-' || { let u = c as u32; 48 <= u && u <= 57 } {
        skip_number_x(cs, i)
    } else {
        None
    }
}

/// Executable twin of [`skip_obj_members`].
#[verifier::rlimit(80)]
#[verifier::spinoff_prover]
fn skip_obj_members_x(cs: &Vec<char>, i: usize, d: u32) -> (r: Option<usize>)
    requires
        i <= cs@.len(),
    ensures
        match r {
            Some(j) => {
                &&& i <= j <= cs@.len()
                &&& skip_obj_members(cs@.skip(i as int), d as nat) == Some(cs@.skip(j as int))
            },
            None => skip_obj_members(cs@.skip(i as int), d as nat) is None,
        },
    decreases d, cs@.len() - i, 1int,
{
    let ghost s = cs@.skip(i as int);
    let n = cs.len();
    if i == n || cs[i] != '"' {
        proof {
            if i < cs@.len() {
                assert(s[0] == cs@[i as int]);
            }
        }
        return None;
    }
    proof {
        assert(s[0] == cs@[i as int]);
        assert(s.skip(1) =~= cs@.skip(i as int + 1));
    }
    match parse_strchars_x(cs, i + 1) {
        None => None,
        Some((_key, p1)) => {
            let r2 = ws_to(cs, p1);
            if r2 == n || cs[r2] != ':' {
                proof {
                    if r2 < cs@.len() {
                        assert(cs@.skip(r2 as int)[0] == cs@[r2 as int]);
                    }
                }
                return None;
            }
            proof {
                assert(cs@.skip(r2 as int)[0] == cs@[r2 as int]);
                assert(cs@.skip(r2 as int).skip(1) =~= cs@.skip(r2 as int + 1));
            }
            let r3 = ws_to(cs, r2 + 1);
            if r3 <= i {
                proof {
                    assert(cs@.skip(r3 as int).len() >= s.len());
                }
                return None;
            }
            proof {
                assert(cs@.skip(r3 as int).len() < s.len());
            }
            match skip_value_x(cs, r3, d) {
                None => None,
                Some(r4) => {
                    let r5 = ws_to(cs, r4);
                    if r5 == n {
                        return None;
                    }
                    proof {
                        assert(cs@.skip(r5 as int)[0] == cs@[r5 as int]);
                        assert(cs@.skip(r5 as int).skip(1) =~= cs@.skip(r5 as int + 1));
                    }
                    if cs[r5] == '}' {
                        Some(r5 + 1)
                    } else if cs[r5] == ',' {
                        let r6 = ws_to(cs, r5 + 1);
                        if r6 > i {
                            proof {
                                assert(cs@.skip(r6 as int).len() < s.len());
                            }
                            skip_obj_members_x(cs, r6, d)
                        } else {
                            proof {
                                assert(cs@.skip(r6 as int).len() >= s.len());
                            }
                            None
                        }
                    } else {
                        None
                    }
                },
            }
        },
    }
}

/// Executable twin of [`skip_arr_items`].
#[verifier::rlimit(80)]
#[verifier::spinoff_prover]
fn skip_arr_items_x(cs: &Vec<char>, i: usize, d: u32) -> (r: Option<usize>)
    requires
        i <= cs@.len(),
    ensures
        match r {
            Some(j) => {
                &&& i <= j <= cs@.len()
                &&& skip_arr_items(cs@.skip(i as int), d as nat) == Some(cs@.skip(j as int))
            },
            None => skip_arr_items(cs@.skip(i as int), d as nat) is None,
        },
    decreases d, cs@.len() - i, 1int,
{
    let ghost s = cs@.skip(i as int);
    let n = cs.len();
    if i == n {
        return None;
    }
    match skip_value_x(cs, i, d) {
        None => None,
        Some(r1) => {
            let r2 = ws_to(cs, r1);
            if r2 == n {
                return None;
            }
            proof {
                assert(cs@.skip(r2 as int)[0] == cs@[r2 as int]);
                assert(cs@.skip(r2 as int).skip(1) =~= cs@.skip(r2 as int + 1));
            }
            if cs[r2] == ']' {
                Some(r2 + 1)
            } else if cs[r2] == ',' {
                let r3 = ws_to(cs, r2 + 1);
                if r3 > i {
                    proof {
                        assert(cs@.skip(r3 as int).len() < s.len());
                    }
                    skip_arr_items_x(cs, r3, d)
                } else {
                    proof {
                        assert(cs@.skip(r3 as int).len() >= s.len());
                    }
                    None
                }
            } else {
                None
            }
        },
    }
}

// ---------------------------------------------------------------------------
// executable decoders: arrays, settings, the map
// ---------------------------------------------------------------------------

/// The contents of a vector of strings, as sequences.
pub open spec fn strs_view(v: Seq<String>) -> Seq<Seq<char>> {
    v.map_values(|s: String| s@)
}

/// The contents of a vector of map entries, as pairs of sequences and
/// views.
pub open spec fn map_view(m: Seq<(String, PluggableMonitorSetting)>) -> Seq<
    (Seq<char>, PluggableMonitorSettingV),
> {
    m.map_values(|p: (String, PluggableMonitorSetting)| (p.0@, p.1@))
}

/// Executable twin of [`parse_str_array`].
#[verifier::rlimit(100)]
#[verifier::spinoff_prover]
fn parse_str_array_x(cs: &Vec<char>, i: usize) -> (r: Option<(Vec<String>, usize)>)
    requires
        i <= cs@.len(),
    ensures
        match r {
            Some(p) => {
                &&& i <= p.1 <= cs@.len()
                &&& parse_str_array(cs@.skip(i as int)) == Some(
                    (strs_view(p.0@), cs@.skip(p.1 as int)),
                )
            },
            None => parse_str_array(cs@.skip(i as int)) is None,
        },
{
    let n = cs.len();
    if i == n || cs[i] != '[' {
        proof {
            if i < cs@.len() {
                assert(cs@.skip(i as int)[0] == cs@[i as int]);
            }
        }
        return None;
    }
    proof {
        assert(cs@.skip(i as int)[0] == cs@[i as int]);
        assert(cs@.skip(i as int).skip(1) =~= cs@.skip(i as int + 1));
    }
    let t = ws_to(cs, i + 1);
    let ghost tv = cs@.skip(t as int);
    let mut acc: Vec<String> = Vec::new();
    proof {
        assert(strs_view(acc@) =~= Seq::<Seq<char>>::empty());
    }
    if t < n && cs[t] == ']' {
        proof {
            assert(tv[0] == cs@[t as int]);
            assert(tv.skip(1) =~= cs@.skip(t as int + 1));
        }
        return Some((acc, t + 1));
    }
    proof {
        if t < cs@.len() {
            assert(tv[0] == cs@[t as int]);
        }
    }
    let mut cur = t;
    proof {
        assert(parse_str_array(cs@.skip(i as int)) == scan_str_items(
            tv,
            Seq::<Seq<char>>::empty(),
        ));
    }
    loop
        invariant
            cur <= cs@.len(),
            i <= cur,
            n == cs@.len(),
            parse_str_array(cs@.skip(i as int)) == scan_str_items(
                tv,
                Seq::<Seq<char>>::empty(),
            ),
            scan_str_items(tv, Seq::empty()) == scan_str_items(
                cs@.skip(cur as int),
                strs_view(acc@),
            ),
        decreases cs@.len() - cur,
    {
        let ghost s = cs@.skip(cur as int);
        let ghost accv = strs_view(acc@);
        match parse_json_string_x(cs, cur) {
            None => {
                return None;
            },
            Some((v, j1)) => {
                let sv = chars_to_string(&v);
                let r2 = ws_to(cs, j1);
                if r2 == n {
                    return None;
                }
                proof {
                    assert(cs@.skip(r2 as int)[0] == cs@[r2 as int]);
                    assert(cs@.skip(r2 as int).skip(1) =~= cs@.skip(r2 as int + 1));
                }
                if cs[r2] == ']' {
                    acc.push(sv);
                    proof {
                        assert(strs_view(acc@) =~= accv.push(v@));
                    }
                    return Some((acc, r2 + 1));
                } else if cs[r2] == ',' {
                    let r3 = ws_to(cs, r2 + 1);
                    acc.push(sv);
                    proof {
                        assert(strs_view(acc@) =~= accv.push(v@));
                    }
                    if r3 > cur {
                        proof {
                            assert(cs@.skip(r3 as int).len() < s.len());
                        }
                        cur = r3;
                    } else {
                        proof {
                            assert(cs@.skip(r3 as int).len() >= s.len());
                        }
                        return None;
                    }
                } else {
                    return None;
                }
            },
        }
    }
}

/// Executable scan accumulator for a pluggable setting object.
struct StAccX {
    seen_id: bool,
    id: Option<String>,
    seen_label: bool,
    label: Option<String>,
    seen_type: bool,
    type_: Option<crate::protocol::LabelType>,
    seen_values: bool,
    values: Vec<String>,
    seen_sel: bool,
    sel: String,
}

impl View for StAccX {
    type V = StAcc;

    closed spec fn view(&self) -> StAcc {
        StAcc {
            seen_id: self.seen_id,
            id: match self.id {
                Some(ref s) => Some(s@),
                None => None,
            },
            seen_label: self.seen_label,
            label: match self.label {
                Some(ref s) => Some(s@),
                None => None,
            },
            seen_type: self.seen_type,
            type_: self.type_,
            seen_values: self.seen_values,
            values: strs_view(self.values@),
            seen_sel: self.seen_sel,
            sel: self.sel@,
        }
    }
}

fn st_acc_init_x() -> (a: StAccX)
    ensures
        a@ == st_acc_init(),
{
    let a = StAccX {
        seen_id: false,
        id: None,
        seen_label: false,
        label: None,
        seen_type: false,
        type_: None,
        seen_values: false,
        values: Vec::new(),
        seen_sel: false,
        sel: String::new(),
    };
    proof {
        assert(strs_view(a.values@) =~= Seq::<Seq<char>>::empty());
        assert(a@ =~= st_acc_init());
    }
    a
}

/// Executable twin of [`scan_setting_member`].
#[verifier::rlimit(100)]
#[verifier::spinoff_prover]
fn scan_setting_member_x(cs: &Vec<char>, key: &Vec<char>, i: usize, a: StAccX) -> (r: Option<
    (StAccX, usize),
>)
    requires
        i <= cs@.len(),
    ensures
        match r {
            Some(p) => {
                &&& i <= p.1 <= cs@.len()
                &&& scan_setting_member(key@, cs@.skip(i as int), a@) == Some(
                    (p.0@, cs@.skip(p.1 as int)),
                )
            },
            None => scan_setting_member(key@, cs@.skip(i as int), a@) is None,
        },
{
    proof {
        reveal(scan_setting_member);
    }
    if chars_eq_lit(key, "id") {
        if a.seen_id {
            return None;
        }
        match parse_opt_string_x(cs, i) {
            Some((v, j)) => Some((StAccX { seen_id: true, id: v, ..a }, j)),
            None => None,
        }
    } else if chars_eq_lit(key, "label") {
        if a.seen_label {
            return None;
        }
        match parse_opt_string_x(cs, i) {
            Some((v, j)) => Some((StAccX { seen_label: true, label: v, ..a }, j)),
            None => None,
        }
    } else if chars_eq_lit(key, "type") {
        if a.seen_type {
            return None;
        }
        match parse_opt_label_type_x(cs, i) {
            Some((v, j)) => Some((StAccX { seen_type: true, type_: v, ..a }, j)),
            None => None,
        }
    } else if chars_eq_lit(key, "values") {
        if a.seen_values {
            return None;
        }
        match parse_str_array_x(cs, i) {
            Some((v, j)) => Some((StAccX { seen_values: true, values: v, ..a }, j)),
            None => None,
        }
    } else if chars_eq_lit(key, "selectedValue") {
        if a.seen_sel {
            return None;
        }
        match parse_json_string_x(cs, i) {
            Some((v, j)) => Some((StAccX { seen_sel: true, sel: chars_to_string(&v), ..a }, j)),
            None => None,
        }
    } else {
        match skip_value_x(cs, i, SKIP_DEPTH) {
            Some(j) => Some((a, j)),
            None => None,
        }
    }
}

/// Outcome of one member step while scanning a setting object.
enum StStep {
    SDone(StAccX, usize),
    SNext(StAccX, usize),
    SFail,
}

/// One `key : value` member step of a setting object scan.
#[verifier::rlimit(100)]
#[verifier::spinoff_prover]
fn scan_setting_step(cs: &Vec<char>, cur: usize, a: StAccX) -> (r: StStep)
    requires
        cur <= cs@.len(),
    ensures
        match r {
            StStep::SDone(a2, j) => {
                &&& cur < j <= cs@.len()
                &&& scan_setting(cs@.skip(cur as int), a@) == Some((a2@, cs@.skip(j as int)))
            },
            StStep::SNext(a2, j) => {
                &&& cur < j <= cs@.len()
                &&& scan_setting(cs@.skip(cur as int), a@) == scan_setting(
                    cs@.skip(j as int),
                    a2@,
                )
            },
            StStep::SFail => scan_setting(cs@.skip(cur as int), a@) is None,
        },
{
    proof {
        reveal(scan_setting);
    }
    let ghost s = cs@.skip(cur as int);
    let ghost av = a@;
    let n = cs.len();
    if cur == n || cs[cur] != '"' {
        proof {
            if cur < cs@.len() {
                assert(s[0] == cs@[cur as int]);
            }
        }
        return StStep::SFail;
    }
    proof {
        assert(s[0] == cs@[cur as int]);
        assert(s.skip(1) =~= cs@.skip(cur as int + 1));
    }
    match parse_strchars_x(cs, cur + 1) {
        None => StStep::SFail,
        Some((key, p1)) => {
            let r2 = ws_to(cs, p1);
            if r2 == n || cs[r2] != ':' {
                proof {
                    if r2 < cs@.len() {
                        assert(cs@.skip(r2 as int)[0] == cs@[r2 as int]);
                    }
                }
                return StStep::SFail;
            }
            proof {
                assert(cs@.skip(r2 as int)[0] == cs@[r2 as int]);
                assert(cs@.skip(r2 as int).skip(1) =~= cs@.skip(r2 as int + 1));
            }
            let r3 = ws_to(cs, r2 + 1);
            match scan_setting_member_x(cs, &key, r3, a) {
                None => StStep::SFail,
                Some((a2, r4)) => {
                    let r5 = ws_to(cs, r4);
                    if r5 == n {
                        return StStep::SFail;
                    }
                    proof {
                        assert(cs@.skip(r5 as int)[0] == cs@[r5 as int]);
                        assert(cs@.skip(r5 as int).skip(1) =~= cs@.skip(r5 as int + 1));
                    }
                    if cs[r5] == '}' {
                        StStep::SDone(a2, r5 + 1)
                    } else if cs[r5] == ',' {
                        let r6 = ws_to(cs, r5 + 1);
                        if r6 > cur {
                            proof {
                                assert(cs@.skip(r6 as int).len() < s.len());
                            }
                            StStep::SNext(a2, r6)
                        } else {
                            proof {
                                assert(cs@.skip(r6 as int).len() >= s.len());
                            }
                            StStep::SFail
                        }
                    } else {
                        StStep::SFail
                    }
                },
            }
        },
    }
}

/// Executable twin of [`scan_setting`].
#[verifier::rlimit(100)]
#[verifier::spinoff_prover]
fn scan_setting_x(cs: &Vec<char>, i: usize, a0: StAccX) -> (r: Option<(StAccX, usize)>)
    requires
        i <= cs@.len(),
    ensures
        match r {
            Some(p) => {
                &&& i <= p.1 <= cs@.len()
                &&& scan_setting(cs@.skip(i as int), a0@) == Some((p.0@, cs@.skip(p.1 as int)))
            },
            None => scan_setting(cs@.skip(i as int), a0@) is None,
        },
{
    let ghost a0v = a0@;
    let mut a = a0;
    let mut cur = i;
    loop
        invariant
            i <= cur <= cs@.len(),
            a0v == a0@,
            scan_setting(cs@.skip(i as int), a0v) == scan_setting(cs@.skip(cur as int), a@),
        decreases cs@.len() - cur,
    {
        let ghost av = a@;
        match scan_setting_step(cs, cur, a) {
            StStep::SDone(a2, j) => {
                proof {
                    assert(scan_setting(cs@.skip(cur as int), av) == Some(
                        (a2@, cs@.skip(j as int)),
                    ));
                    assert(scan_setting(cs@.skip(i as int), a0v) == Some(
                        (a2@, cs@.skip(j as int)),
                    ));
                }
                return Some((a2, j));
            },
            StStep::SNext(a2, j) => {
                a = a2;
                cur = j;
            },
            StStep::SFail => {
                proof {
                    assert(scan_setting(cs@.skip(cur as int), av) is None);
                    assert(scan_setting(cs@.skip(i as int), a0v) is None);
                }
                return None;
            },
        }
    }
}

/// Executable twin of [`parse_setting`].
#[verifier::rlimit(100)]
#[verifier::spinoff_prover]
fn parse_setting_x(cs: &Vec<char>, i: usize) -> (r: Option<(PluggableMonitorSetting, usize)>)
    requires
        i <= cs@.len(),
    ensures
        match r {
            Some(p) => {
                &&& i <= p.1 <= cs@.len()
                &&& parse_setting(cs@.skip(i as int)) == Some((p.0@, cs@.skip(p.1 as int)))
            },
            None => parse_setting(cs@.skip(i as int)) is None,
        },
{
    let n = cs.len();
    if i == n || cs[i] != '{' {
        proof {
            if i < cs@.len() {
                assert(cs@.skip(i as int)[0] == cs@[i as int]);
            }
        }
        return None;
    }
    proof {
        assert(cs@.skip(i as int)[0] == cs@[i as int]);
        assert(cs@.skip(i as int).skip(1) =~= cs@.skip(i as int + 1));
    }
    let t = ws_to(cs, i + 1);
    if t < n && cs[t] == '}' {
        proof {
            assert(cs@.skip(t as int)[0] == cs@[t as int]);
        }
        return None;
    }
    proof {
        if t < cs@.len() {
            assert(cs@.skip(t as int)[0] == cs@[t as int]);
        }
    }
    match scan_setting_x(cs, t, st_acc_init_x()) {
        None => None,
        Some((a, j)) => {
            if a.seen_sel {
                let av = a;
                let v = PluggableMonitorSetting {
                    id: av.id,
                    label: av.label,
                    type_: av.type_,
                    values: av.values,
                    selected_value: av.sel,
                };
                proof {
                    assert(v@.values =~= strs_view(v.values@));
                    assert(v@ =~= st_finish(av@).unwrap());
                }
                Some((v, j))
            } else {
                None
            }
        },
    }
}

/// Characterization of [`key_index`].
pub proof fn lemma_key_index_props(m: Seq<(Seq<char>, PluggableMonitorSettingV)>, key: Seq<char>)
    ensures
        key_index(m, key) >= 0 ==> {
            &&& key_index(m, key) < m.len()
            &&& m[key_index(m, key)].0 == key
            &&& forall|q: int| 0 <= q < key_index(m, key) ==> m[q].0 != key
        },
        key_index(m, key) < 0 ==> forall|q: int| 0 <= q < m.len() ==> m[q].0 != key,
    decreases m.len(),
{
    if m.len() == 0 {
    } else if m[0].0 == key {
        assert(key_index(m, key) == 0);
    } else {
        lemma_key_index_props(m.skip(1), key);
        let r = key_index(m.skip(1), key);
        if r >= 0 {
            assert(key_index(m, key) == r + 1);
            assert(m.skip(1)[r] == m[r + 1]);
            assert forall|q: int| 0 <= q < r + 1 implies m[q].0 != key by {
                if q > 0 {
                    assert(m.skip(1)[q - 1] == m[q]);
                }
            }
        } else {
            assert(key_index(m, key) == -1);
            assert forall|q: int| 0 <= q < m.len() implies m[q].0 != key by {
                if q > 0 {
                    assert(m.skip(1)[q - 1] == m[q]);
                }
            }
        }
    }
}

/// Executable twin of [`map_insert`]: replace in place, or append.
#[verifier::rlimit(100)]
#[verifier::spinoff_prover]
fn map_insert_x(
    m: &mut Vec<(String, PluggableMonitorSetting)>,
    key: &Vec<char>,
    v: PluggableMonitorSetting,
)
    ensures
        map_view(final(m)@) == map_insert(map_view(old(m)@), key@, v@),
{
    let ghost mv = map_view(old(m)@);
    proof {
        lemma_key_index_props(mv, key@);
    }
    let n = m.len();
    let mut idx: usize = 0;
    while idx < n
        invariant
            idx <= n,
            n == m@.len(),
            mv == map_view(m@),
            m@ == old(m)@,
            forall|q: int| 0 <= q < idx ==> mv[q].0 != key@,
        decreases n - idx,
    {
        proof {
            assert(mv[idx as int] == (m@[idx as int].0@, m@[idx as int].1@));
        }
        if chars_eq_lit(key, m[idx].0.as_str()) {
            proof {
                lemma_key_index_props(mv, key@);
                assert(mv[idx as int].0 == key@);
                assert(key_index(mv, key@) == idx);
            }
            let ks = chars_to_string(key);
            m.set(idx, (ks, v));
            proof {
                assert(map_view(m@) =~= mv.update(idx as int, (key@, v@)));
            }
            return ;
        }
        idx = idx + 1;
    }
    proof {
        lemma_key_index_props(mv, key@);
        assert(key_index(mv, key@) < 0);
    }
    let ks = chars_to_string(key);
    m.push((ks, v));
    proof {
        assert(map_view(m@) =~= mv.push((key@, v@)));
    }
}

/// Inserting into a map with distinct keys keeps the keys distinct.
proof fn lemma_map_insert_wf(
    m: Seq<(Seq<char>, PluggableMonitorSettingV)>,
    key: Seq<char>,
    v: PluggableMonitorSettingV,
)
    requires
        map_keys_distinct(m),
    ensures
        map_keys_distinct(map_insert(m, key, v)),
{
    lemma_key_index_props(m, key);
    let i = key_index(m, key);
    let m2 = map_insert(m, key, v);
    if i < 0 {
        assert forall|p: int, q: int| 0 <= p < q < m2.len() implies m2[p].0 != m2[q].0 by {
            if q == m.len() {
                assert(m2[p].0 == m[p].0);
                assert(m[p].0 != key);
            } else {
                assert(m2[p] == m[p] && m2[q] == m[q]);
            }
        }
    } else {
        assert(m[i].0 == key);
        assert forall|p: int, q: int| 0 <= p < q < m2.len() implies m2[p].0 != m2[q].0 by {
            assert(m2[p].0 == m[p].0);
            assert(m2[q].0 == m[q].0);
        }
    }
}

impl PluggableMonitorSettings {
    /// Insert one setting under its id: a later binding of an id already
    /// present replaces it in place, a new id is appended.  Distinct keys
    /// stay distinct.
    #[verifier::rlimit(100)]
    #[verifier::spinoff_prover]
    pub fn insert(&mut self, key: String, value: PluggableMonitorSetting)
        ensures
            final(self)@ == map_insert(old(self)@, key@, value@),
            old(self).wf() ==> final(self).wf(),
    {
        proof {
            lemma_key_index_props(old(self)@, key@);
            if old(self).wf() {
                lemma_map_insert_wf(old(self)@, key@, value@);
            }
        }
        let ghost mv = old(self)@;
        let n = self.0.len();
        let mut idx: usize = 0;
        while idx < n
            invariant
                idx <= n,
                n == self.0@.len(),
                mv == self@,
                self == old(self),
                forall|q: int| 0 <= q < idx ==> mv[q].0 != key@,
            decreases n - idx,
        {
            proof {
                assert(mv[idx as int] == (self.0@[idx as int].0@, self.0@[idx as int].1@));
            }
            if crate::json::str_eq(self.0[idx].0.as_str(), key.as_str()) {
                proof {
                    lemma_key_index_props(mv, key@);
                    assert(mv[idx as int].0 == key@);
                    assert(key_index(mv, key@) == idx);
                }
                self.0.set(idx, (key, value));
                proof {
                    assert(self@ =~= mv.update(idx as int, (key@, value@)));
                }
                return ;
            }
            idx = idx + 1;
        }
        proof {
            lemma_key_index_props(mv, key@);
            assert(key_index(mv, key@) < 0);
        }
        self.0.push((key, value));
        proof {
            assert(self@ =~= mv.push((key@, value@)));
        }
    }

    /// Whether a setting with this id is in the map.
    pub fn contains_key(&self, key: &str) -> (r: bool)
        ensures
            r == (key_index(self@, key@) >= 0),
    {
        proof {
            lemma_key_index_props(self@, key@);
        }
        let n = self.0.len();
        let mut idx: usize = 0;
        while idx < n
            invariant
                idx <= n,
                n == self.0@.len(),
                forall|q: int| 0 <= q < idx ==> self@[q].0 != key@,
            decreases n - idx,
        {
            proof {
                assert(self@[idx as int] == (self.0@[idx as int].0@, self.0@[idx as int].1@));
            }
            if crate::json::str_eq(self.0[idx].0.as_str(), key) {
                proof {
                    lemma_key_index_props(self@, key@);
                    assert(self@[idx as int].0 == key@);
                }
                return true;
            }
            idx = idx + 1;
        }
        proof {
            lemma_key_index_props(self@, key@);
            if key_index(self@, key@) >= 0 {
                assert(self@[key_index(self@, key@)].0 == key@);
            }
        }
        false
    }

    /// The setting stored under this id, if any.
    pub fn get(&self, key: &str) -> (r: Option<&PluggableMonitorSetting>)
        ensures
            match r {
                Some(v) => key_index(self@, key@) >= 0 && v@ == self@[key_index(self@, key@)].1,
                None => key_index(self@, key@) < 0,
            },
    {
        proof {
            lemma_key_index_props(self@, key@);
        }
        let n = self.0.len();
        let mut idx: usize = 0;
        while idx < n
            invariant
                idx <= n,
                n == self.0@.len(),
                forall|q: int| 0 <= q < idx ==> self@[q].0 != key@,
            decreases n - idx,
        {
            proof {
                assert(self@[idx as int] == (self.0@[idx as int].0@, self.0@[idx as int].1@));
            }
            if crate::json::str_eq(self.0[idx].0.as_str(), key) {
                proof {
                    lemma_key_index_props(self@, key@);
                    assert(self@[idx as int].0 == key@);
                    assert(key_index(self@, key@) == idx);
                }
                return Some(&self.0[idx].1);
            }
            idx = idx + 1;
        }
        proof {
            lemma_key_index_props(self@, key@);
            if key_index(self@, key@) >= 0 {
                assert(self@[key_index(self@, key@)].0 == key@);
            }
        }
        None
    }
}

/// Executable twin of [`scan_map`].
#[verifier::rlimit(100)]
#[verifier::spinoff_prover]
fn scan_map_x(cs: &Vec<char>, i: usize) -> (r: Option<
    (Vec<(String, PluggableMonitorSetting)>, usize),
>)
    requires
        i <= cs@.len(),
    ensures
        match r {
            Some(p) => {
                &&& i <= p.1 <= cs@.len()
                &&& scan_map(cs@.skip(i as int), Seq::empty()) == Some(
                    (map_view(p.0@), cs@.skip(p.1 as int)),
                )
            },
            None => scan_map(cs@.skip(i as int), Seq::empty()) is None,
        },
{
    let mut acc: Vec<(String, PluggableMonitorSetting)> = Vec::new();
    proof {
        assert(map_view(acc@) =~= Seq::<(Seq<char>, PluggableMonitorSettingV)>::empty());
    }
    let mut cur = i;
    let n = cs.len();
    loop
        invariant
            i <= cur <= cs@.len(),
            n == cs@.len(),
            scan_map(cs@.skip(i as int), Seq::empty()) == scan_map(
                cs@.skip(cur as int),
                map_view(acc@),
            ),
        decreases cs@.len() - cur,
    {
        let ghost s = cs@.skip(cur as int);
        let ghost accv = map_view(acc@);
        if cur == n || cs[cur] != '"' {
            proof {
                if cur < cs@.len() {
                    assert(s[0] == cs@[cur as int]);
                }
            }
            return None;
        }
        proof {
            assert(s[0] == cs@[cur as int]);
            assert(s.skip(1) =~= cs@.skip(cur as int + 1));
        }
        match parse_strchars_x(cs, cur + 1) {
            None => {
                return None;
            },
            Some((key, p1)) => {
                let r2 = ws_to(cs, p1);
                if r2 == n || cs[r2] != ':' {
                    proof {
                        if r2 < cs@.len() {
                            assert(cs@.skip(r2 as int)[0] == cs@[r2 as int]);
                        }
                    }
                    return None;
                }
                proof {
                    assert(cs@.skip(r2 as int)[0] == cs@[r2 as int]);
                    assert(cs@.skip(r2 as int).skip(1) =~= cs@.skip(r2 as int + 1));
                }
                let r3 = ws_to(cs, r2 + 1);
                match parse_setting_x(cs, r3) {
                    None => {
                        return None;
                    },
                    Some((v, r4)) => {
                        map_insert_x(&mut acc, &key, v);
                        let r5 = ws_to(cs, r4);
                        if r5 == n {
                            return None;
                        }
                        proof {
                            assert(cs@.skip(r5 as int)[0] == cs@[r5 as int]);
                            assert(cs@.skip(r5 as int).skip(1) =~= cs@.skip(r5 as int + 1));
                        }
                        if cs[r5] == '}' {
                            proof {
                                assert(scan_map(s, accv) == Some(
                                    (map_view(acc@), cs@.skip(r5 as int + 1)),
                                ));
                            }
                            return Some((acc, r5 + 1));
                        } else if cs[r5] == ',' {
                            let r6 = ws_to(cs, r5 + 1);
                            if r6 > cur {
                                proof {
                                    assert(cs@.skip(r6 as int).len() < s.len());
                                    assert(scan_map(s, accv) == scan_map(
                                        cs@.skip(r6 as int),
                                        map_view(acc@),
                                    ));
                                }
                                cur = r6;
                            } else {
                                proof {
                                    assert(cs@.skip(r6 as int).len() >= s.len());
                                }
                                return None;
                            }
                        } else {
                            return None;
                        }
                    },
                }
            },
        }
    }
}

/// Executable twin of [`parse_map`].
#[verifier::rlimit(100)]
#[verifier::spinoff_prover]
fn parse_map_x(cs: &Vec<char>, i: usize) -> (r: Option<(PluggableMonitorSettings, usize)>)
    requires
        i <= cs@.len(),
    ensures
        match r {
            Some(p) => {
                &&& i <= p.1 <= cs@.len()
                &&& parse_map(cs@.skip(i as int)) == Some((p.0@, cs@.skip(p.1 as int)))
            },
            None => parse_map(cs@.skip(i as int)) is None,
        },
{
    let n = cs.len();
    if i == n || cs[i] != '{' {
        proof {
            if i < cs@.len() {
                assert(cs@.skip(i as int)[0] == cs@[i as int]);
            }
        }
        return None;
    }
    proof {
        assert(cs@.skip(i as int)[0] == cs@[i as int]);
        assert(cs@.skip(i as int).skip(1) =~= cs@.skip(i as int + 1));
    }
    let t = ws_to(cs, i + 1);
    if t < n && cs[t] == '}' {
        proof {
            assert(cs@.skip(t as int)[0] == cs@[t as int]);
            assert(cs@.skip(t as int).skip(1) =~= cs@.skip(t as int + 1));
        }
        let v = PluggableMonitorSettings(Vec::new());
        proof {
            assert(v@ =~= Seq::<(Seq<char>, PluggableMonitorSettingV)>::empty());
        }
        return Some((v, t + 1));
    }
    proof {
        if t < cs@.len() {
            assert(cs@.skip(t as int)[0] == cs@[t as int]);
        }
    }
    match scan_map_x(cs, t) {
        None => None,
        Some((m, j)) => {
            let v = PluggableMonitorSettings(m);
            proof {
                assert(v@ =~= map_view(v.0@));
            }
            Some((v, j))
        },
    }
}

// ---------------------------------------------------------------------------
// executable decoders: the UI state object
// ---------------------------------------------------------------------------

/// Executable scan accumulator for the UI state object.
struct MsAccX {
    seen_autoscroll: bool,
    autoscroll: Option<bool>,
    seen_timestamp: bool,
    timestamp: Option<bool>,
    seen_line_ending: bool,
    line_ending: Option<EndOfLine>,
    seen_interpolate: bool,
    interpolate: Option<bool>,
    seen_dark_theme: bool,
    dark_theme: Option<bool>,
    seen_ws_port: bool,
    ws_port: Option<u16>,
    seen_serial_port: bool,
    serial_port: Option<String>,
    seen_connected: bool,
    connected: Option<bool>,
    seen_generate: bool,
    generate: bool,
}

impl View for MsAccX {
    type V = MsAcc;

    closed spec fn view(&self) -> MsAcc {
        MsAcc {
            seen_autoscroll: self.seen_autoscroll,
            autoscroll: self.autoscroll,
            seen_timestamp: self.seen_timestamp,
            timestamp: self.timestamp,
            seen_line_ending: self.seen_line_ending,
            line_ending: self.line_ending,
            seen_interpolate: self.seen_interpolate,
            interpolate: self.interpolate,
            seen_dark_theme: self.seen_dark_theme,
            dark_theme: self.dark_theme,
            seen_ws_port: self.seen_ws_port,
            ws_port: self.ws_port,
            seen_serial_port: self.seen_serial_port,
            serial_port: match self.serial_port {
                Some(ref s) => Some(s@),
                None => None,
            },
            seen_connected: self.seen_connected,
            connected: self.connected,
            seen_generate: self.seen_generate,
            generate: self.generate,
        }
    }
}

fn ms_acc_init_x() -> (a: MsAccX)
    ensures
        a@ == ms_acc_init(),
{
    MsAccX {
        seen_autoscroll: false,
        autoscroll: None,
        seen_timestamp: false,
        timestamp: None,
        seen_line_ending: false,
        line_ending: None,
        seen_interpolate: false,
        interpolate: None,
        seen_dark_theme: false,
        dark_theme: None,
        seen_ws_port: false,
        ws_port: None,
        seen_serial_port: false,
        serial_port: None,
        seen_connected: false,
        connected: None,
        seen_generate: false,
        generate: false,
    }
}

/// Executable twin of [`scan_model_member`].
#[verifier::rlimit(100)]
#[verifier::spinoff_prover]
fn scan_model_member_x(cs: &Vec<char>, key: &Vec<char>, i: usize, a: MsAccX) -> (r: Option<
    (MsAccX, usize),
>)
    requires
        i <= cs@.len(),
    ensures
        match r {
            Some(p) => {
                &&& i <= p.1 <= cs@.len()
                &&& scan_model_member(key@, cs@.skip(i as int), a@) == Some(
                    (p.0@, cs@.skip(p.1 as int)),
                )
            },
            None => scan_model_member(key@, cs@.skip(i as int), a@) is None,
        },
{
    proof {
        reveal(scan_model_member);
    }
    if chars_eq_lit(key, "autoscroll") {
        if a.seen_autoscroll {
            return None;
        }
        match parse_opt_bool_x(cs, i) {
            Some((v, j)) => Some((MsAccX { seen_autoscroll: true, autoscroll: v, ..a }, j)),
            None => None,
        }
    } else if chars_eq_lit(key, "timestamp") {
        if a.seen_timestamp {
            return None;
        }
        match parse_opt_bool_x(cs, i) {
            Some((v, j)) => Some((MsAccX { seen_timestamp: true, timestamp: v, ..a }, j)),
            None => None,
        }
    } else if chars_eq_lit(key, "lineEnding") {
        if a.seen_line_ending {
            return None;
        }
        match parse_opt_eol_x(cs, i) {
            Some((v, j)) => Some((MsAccX { seen_line_ending: true, line_ending: v, ..a }, j)),
            None => None,
        }
    } else if chars_eq_lit(key, "interpolate") {
        if a.seen_interpolate {
            return None;
        }
        match parse_opt_bool_x(cs, i) {
            Some((v, j)) => Some((MsAccX { seen_interpolate: true, interpolate: v, ..a }, j)),
            None => None,
        }
    } else if chars_eq_lit(key, "darkTheme") {
        if a.seen_dark_theme {
            return None;
        }
        match parse_opt_bool_x(cs, i) {
            Some((v, j)) => Some((MsAccX { seen_dark_theme: true, dark_theme: v, ..a }, j)),
            None => None,
        }
    } else if chars_eq_lit(key, "wsPort") {
        if a.seen_ws_port {
            return None;
        }
        match parse_opt_port_x(cs, i) {
            Some((v, j)) => Some((MsAccX { seen_ws_port: true, ws_port: v, ..a }, j)),
            None => None,
        }
    } else if chars_eq_lit(key, "serialPort") {
        if a.seen_serial_port {
            return None;
        }
        match parse_opt_string_x(cs, i) {
            Some((v, j)) => Some((MsAccX { seen_serial_port: true, serial_port: v, ..a }, j)),
            None => None,
        }
    } else if chars_eq_lit(key, "connected") {
        if a.seen_connected {
            return None;
        }
        match parse_opt_bool_x(cs, i) {
            Some((v, j)) => Some((MsAccX { seen_connected: true, connected: v, ..a }, j)),
            None => None,
        }
    } else if chars_eq_lit(key, "generate") {
        if a.seen_generate {
            return None;
        }
        match parse_bool_x(cs, i) {
            Some((v, j)) => Some((MsAccX { seen_generate: true, generate: v, ..a }, j)),
            None => None,
        }
    } else {
        match skip_value_x(cs, i, SKIP_DEPTH) {
            Some(j) => Some((a, j)),
            None => None,
        }
    }
}

/// Outcome of one member step while scanning the UI state object.
enum MsStep {
    MDone(MsAccX, usize),
    MNext(MsAccX, usize),
    MFail,
}

/// One `key : value` member step of a UI state object scan.
#[verifier::rlimit(100)]
#[verifier::spinoff_prover]
fn scan_model_step(cs: &Vec<char>, cur: usize, a: MsAccX) -> (r: MsStep)
    requires
        cur <= cs@.len(),
    ensures
        match r {
            MsStep::MDone(a2, j) => {
                &&& cur < j <= cs@.len()
                &&& scan_model(cs@.skip(cur as int), a@) == Some((a2@, cs@.skip(j as int)))
            },
            MsStep::MNext(a2, j) => {
                &&& cur < j <= cs@.len()
                &&& scan_model(cs@.skip(cur as int), a@) == scan_model(cs@.skip(j as int), a2@)
            },
            MsStep::MFail => scan_model(cs@.skip(cur as int), a@) is None,
        },
{
    proof {
        reveal(scan_model);
    }
    let ghost s = cs@.skip(cur as int);
    let n = cs.len();
    if cur == n || cs[cur] != '"' {
        proof {
            if cur < cs@.len() {
                assert(s[0] == cs@[cur as int]);
            }
        }
        return MsStep::MFail;
    }
    proof {
        assert(s[0] == cs@[cur as int]);
        assert(s.skip(1) =~= cs@.skip(cur as int + 1));
    }
    match parse_strchars_x(cs, cur + 1) {
        None => MsStep::MFail,
        Some((key, p1)) => {
            let r2 = ws_to(cs, p1);
            if r2 == n || cs[r2] != ':' {
                proof {
                    if r2 < cs@.len() {
                        assert(cs@.skip(r2 as int)[0] == cs@[r2 as int]);
                    }
                }
                return MsStep::MFail;
            }
            proof {
                assert(cs@.skip(r2 as int)[0] == cs@[r2 as int]);
                assert(cs@.skip(r2 as int).skip(1) =~= cs@.skip(r2 as int + 1));
            }
            let r3 = ws_to(cs, r2 + 1);
            match scan_model_member_x(cs, &key, r3, a) {
                None => MsStep::MFail,
                Some((a2, r4)) => {
                    let r5 = ws_to(cs, r4);
                    if r5 == n {
                        return MsStep::MFail;
                    }
                    proof {
                        assert(cs@.skip(r5 as int)[0] == cs@[r5 as int]);
                        assert(cs@.skip(r5 as int).skip(1) =~= cs@.skip(r5 as int + 1));
                    }
                    if cs[r5] == '}' {
                        MsStep::MDone(a2, r5 + 1)
                    } else if cs[r5] == ',' {
                        let r6 = ws_to(cs, r5 + 1);
                        if r6 > cur {
                            proof {
                                assert(cs@.skip(r6 as int).len() < s.len());
                            }
                            MsStep::MNext(a2, r6)
                        } else {
                            proof {
                                assert(cs@.skip(r6 as int).len() >= s.len());
                            }
                            MsStep::MFail
                        }
                    } else {
                        MsStep::MFail
                    }
                },
            }
        },
    }
}

/// Executable twin of [`scan_model`].
#[verifier::rlimit(100)]
#[verifier::spinoff_prover]
fn scan_model_x(cs: &Vec<char>, i: usize, a0: MsAccX) -> (r: Option<(MsAccX, usize)>)
    requires
        i <= cs@.len(),
    ensures
        match r {
            Some(p) => {
                &&& i <= p.1 <= cs@.len()
                &&& scan_model(cs@.skip(i as int), a0@) == Some((p.0@, cs@.skip(p.1 as int)))
            },
            None => scan_model(cs@.skip(i as int), a0@) is None,
        },
{
    let ghost a0v = a0@;
    let mut a = a0;
    let mut cur = i;
    loop
        invariant
            i <= cur <= cs@.len(),
            a0v == a0@,
            scan_model(cs@.skip(i as int), a0v) == scan_model(cs@.skip(cur as int), a@),
        decreases cs@.len() - cur,
    {
        match scan_model_step(cs, cur, a) {
            MsStep::MDone(a2, j) => {
                return Some((a2, j));
            },
            MsStep::MNext(a2, j) => {
                a = a2;
                cur = j;
            },
            MsStep::MFail => {
                return None;
            },
        }
    }
}

/// Executable twin of [`parse_model`].
#[verifier::rlimit(100)]
#[verifier::spinoff_prover]
fn parse_model_x(cs: &Vec<char>, i: usize) -> (r: Option<(MonitorModelState, usize)>)
    requires
        i <= cs@.len(),
    ensures
        match r {
            Some(p) => {
                &&& i <= p.1 <= cs@.len()
                &&& parse_model(cs@.skip(i as int)) == Some((p.0@, cs@.skip(p.1 as int)))
            },
            None => parse_model(cs@.skip(i as int)) is None,
        },
{
    let n = cs.len();
    if i == n || cs[i] != '{' {
        proof {
            if i < cs@.len() {
                assert(cs@.skip(i as int)[0] == cs@[i as int]);
            }
        }
        return None;
    }
    proof {
        assert(cs@.skip(i as int)[0] == cs@[i as int]);
        assert(cs@.skip(i as int).skip(1) =~= cs@.skip(i as int + 1));
    }
    let t = ws_to(cs, i + 1);
    if t < n && cs[t] == '}' {
        proof {
            assert(cs@.skip(t as int)[0] == cs@[t as int]);
            assert(cs@.skip(t as int).skip(1) =~= cs@.skip(t as int + 1));
        }
        let m = MonitorModelState::default();
        proof {
            assert(m@ =~= ms_finish(ms_acc_init()));
        }
        return Some((m, t + 1));
    }
    proof {
        if t < cs@.len() {
            assert(cs@.skip(t as int)[0] == cs@[t as int]);
        }
    }
    match scan_model_x(cs, t, ms_acc_init_x()) {
        None => None,
        Some((a, j)) => {
            let m = MonitorModelState {
                autoscroll: a.autoscroll,
                timestamp: a.timestamp,
                line_ending: a.line_ending,
                interpolate: a.interpolate,
                dark_theme: a.dark_theme,
                ws_port: a.ws_port,
                serial_port: a.serial_port,
                connected: a.connected,
                generate: a.generate,
            };
            proof {
                assert(m@ =~= ms_finish(a@));
            }
            Some((m, j))
        },
    }
}

// ---------------------------------------------------------------------------
// executable decoders: the settings payload
// ---------------------------------------------------------------------------

/// Executable scan accumulator for the settings payload object.
struct SetAccX {
    seen_pms: bool,
    pms: Option<PluggableMonitorSettings>,
    seen_mus: bool,
    mus: Option<MonitorModelState>,
}

impl View for SetAccX {
    type V = SetAcc;

    closed spec fn view(&self) -> SetAcc {
        SetAcc {
            seen_pms: self.seen_pms,
            pms: match self.pms {
                Some(ref m) => Some(m@),
                None => None,
            },
            seen_mus: self.seen_mus,
            mus: match self.mus {
                Some(ref m) => Some(m@),
                None => None,
            },
        }
    }
}

/// Executable twin of [`scan_settings_member`].
#[verifier::rlimit(100)]
#[verifier::spinoff_prover]
fn scan_settings_member_x(cs: &Vec<char>, key: &Vec<char>, i: usize, a: SetAccX) -> (r: Option<
    (SetAccX, usize),
>)
    requires
        i <= cs@.len(),
    ensures
        match r {
            Some(p) => {
                &&& i <= p.1 <= cs@.len()
                &&& scan_settings_member(key@, cs@.skip(i as int), a@) == Some(
                    (p.0@, cs@.skip(p.1 as int)),
                )
            },
            None => scan_settings_member(key@, cs@.skip(i as int), a@) is None,
        },
{
    proof {
        reveal(scan_settings_member);
    }
    if chars_eq_lit(key, "pluggableMonitorSettings") {
        if a.seen_pms {
            return None;
        }
        match crate::json::eat_lit(cs, i, "null") {
            Some(j) => Some((SetAccX { seen_pms: true, pms: None, ..a }, j)),
            None => match parse_map_x(cs, i) {
                Some((m, j)) => Some((SetAccX { seen_pms: true, pms: Some(m), ..a }, j)),
                None => None,
            },
        }
    } else if chars_eq_lit(key, "monitorUISettings") {
        if a.seen_mus {
            return None;
        }
        match crate::json::eat_lit(cs, i, "null") {
            Some(j) => Some((SetAccX { seen_mus: true, mus: None, ..a }, j)),
            None => match parse_model_x(cs, i) {
                Some((m, j)) => Some((SetAccX { seen_mus: true, mus: Some(m), ..a }, j)),
                None => None,
            },
        }
    } else {
        match skip_value_x(cs, i, SKIP_DEPTH) {
            Some(j) => Some((a, j)),
            None => None,
        }
    }
}

/// Outcome of one member step while scanning the settings payload.
enum SetStep {
    TDone(SetAccX, usize),
    TNext(SetAccX, usize),
    TFail,
}

/// One `key : value` member step of a settings payload scan.
#[verifier::rlimit(100)]
#[verifier::spinoff_prover]
fn scan_settings_step(cs: &Vec<char>, cur: usize, a: SetAccX) -> (r: SetStep)
    requires
        cur <= cs@.len(),
    ensures
        match r {
            SetStep::TDone(a2, j) => {
                &&& cur < j <= cs@.len()
                &&& scan_settings(cs@.skip(cur as int), a@) == Some((a2@, cs@.skip(j as int)))
            },
            SetStep::TNext(a2, j) => {
                &&& cur < j <= cs@.len()
                &&& scan_settings(cs@.skip(cur as int), a@) == scan_settings(
                    cs@.skip(j as int),
                    a2@,
                )
            },
            SetStep::TFail => scan_settings(cs@.skip(cur as int), a@) is None,
        },
{
    proof {
        reveal(scan_settings);
    }
    let ghost s = cs@.skip(cur as int);
    let n = cs.len();
    if cur == n || cs[cur] != '"' {
        proof {
            if cur < cs@.len() {
                assert(s[0] == cs@[cur as int]);
            }
        }
        return SetStep::TFail;
    }
    proof {
        assert(s[0] == cs@[cur as int]);
        assert(s.skip(1) =~= cs@.skip(cur as int + 1));
    }
    match parse_strchars_x(cs, cur + 1) {
        None => SetStep::TFail,
        Some((key, p1)) => {
            let r2 = ws_to(cs, p1);
            if r2 == n || cs[r2] != ':' {
                proof {
                    if r2 < cs@.len() {
                        assert(cs@.skip(r2 as int)[0] == cs@[r2 as int]);
                    }
                }
                return SetStep::TFail;
            }
            proof {
                assert(cs@.skip(r2 as int)[0] == cs@[r2 as int]);
                assert(cs@.skip(r2 as int).skip(1) =~= cs@.skip(r2 as int + 1));
            }
            let r3 = ws_to(cs, r2 + 1);
            match scan_settings_member_x(cs, &key, r3, a) {
                None => SetStep::TFail,
                Some((a2, r4)) => {
                    let r5 = ws_to(cs, r4);
                    if r5 == n {
                        return SetStep::TFail;
                    }
                    proof {
                        assert(cs@.skip(r5 as int)[0] == cs@[r5 as int]);
                        assert(cs@.skip(r5 as int).skip(1) =~= cs@.skip(r5 as int + 1));
                    }
                    if cs[r5] == '}' {
                        SetStep::TDone(a2, r5 + 1)
                    } else if cs[r5] == ',' {
                        let r6 = ws_to(cs, r5 + 1);
                        if r6 > cur {
                            proof {
                                assert(cs@.skip(r6 as int).len() < s.len());
                            }
                            SetStep::TNext(a2, r6)
                        } else {
                            proof {
                                assert(cs@.skip(r6 as int).len() >= s.len());
                            }
                            SetStep::TFail
                        }
                    } else {
                        SetStep::TFail
                    }
                },
            }
        },
    }
}

/// Executable twin of [`scan_settings`].
#[verifier::rlimit(100)]
#[verifier::spinoff_prover]
fn scan_settings_x(cs: &Vec<char>, i: usize, a0: SetAccX) -> (r: Option<(SetAccX, usize)>)
    requires
        i <= cs@.len(),
    ensures
        match r {
            Some(p) => {
                &&& i <= p.1 <= cs@.len()
                &&& scan_settings(cs@.skip(i as int), a0@) == Some((p.0@, cs@.skip(p.1 as int)))
            },
            None => scan_settings(cs@.skip(i as int), a0@) is None,
        },
{
    let ghost a0v = a0@;
    let mut a = a0;
    let mut cur = i;
    loop
        invariant
            i <= cur <= cs@.len(),
            a0v == a0@,
            scan_settings(cs@.skip(i as int), a0v) == scan_settings(cs@.skip(cur as int), a@),
        decreases cs@.len() - cur,
    {
        match scan_settings_step(cs, cur, a) {
            SetStep::TDone(a2, j) => {
                return Some((a2, j));
            },
            SetStep::TNext(a2, j) => {
                a = a2;
                cur = j;
            },
            SetStep::TFail => {
                return None;
            },
        }
    }
}

/// Executable twin of [`parse_settings_obj`].
#[verifier::rlimit(100)]
#[verifier::spinoff_prover]
fn parse_settings_obj_x(cs: &Vec<char>, i: usize) -> (r: Option<(MonitorSettings, usize)>)
    requires
        i <= cs@.len(),
    ensures
        match r {
            Some(p) => {
                &&& i <= p.1 <= cs@.len()
                &&& parse_settings_obj(cs@.skip(i as int)) == Some((p.0@, cs@.skip(p.1 as int)))
            },
            None => parse_settings_obj(cs@.skip(i as int)) is None,
        },
{
    let n = cs.len();
    if i == n || cs[i] != '{' {
        proof {
            if i < cs@.len() {
                assert(cs@.skip(i as int)[0] == cs@[i as int]);
            }
        }
        return None;
    }
    proof {
        assert(cs@.skip(i as int)[0] == cs@[i as int]);
        assert(cs@.skip(i as int).skip(1) =~= cs@.skip(i as int + 1));
    }
    let t = ws_to(cs, i + 1);
    if t < n && cs[t] == '}' {
        proof {
            assert(cs@.skip(t as int)[0] == cs@[t as int]);
            assert(cs@.skip(t as int).skip(1) =~= cs@.skip(t as int + 1));
        }
        let m = MonitorSettings::default();
        proof {
            assert(m@ =~= set_finish(set_acc_init()));
        }
        return Some((m, t + 1));
    }
    proof {
        if t < cs@.len() {
            assert(cs@.skip(t as int)[0] == cs@[t as int]);
        }
    }
    let a0 = SetAccX { seen_pms: false, pms: None, seen_mus: false, mus: None };
    proof {
        assert(a0@ =~= set_acc_init());
    }
    match scan_settings_x(cs, t, a0) {
        None => None,
        Some((a, j)) => {
            let m = MonitorSettings { pluggable_monitor_settings: a.pms, monitor_ui_settings: a.mus };
            proof {
                assert(m@ =~= set_finish(a@));
            }
            Some((m, j))
        },
    }
}

// ---------------------------------------------------------------------------
// executable decoders: the envelope
// ---------------------------------------------------------------------------

/// Executable form of [`DataSeen`].
enum DataSeenX {
    DNone,
    DStr(String),
    DSettings(MonitorSettings),
    DOther,
}

/// Executable scan accumulator for an envelope object.
struct EnvAccX {
    seen_cmd: bool,
    cmd: Vec<char>,
    data: DataSeenX,
}

impl View for EnvAccX {
    type V = EnvAcc;

    closed spec fn view(&self) -> EnvAcc {
        EnvAcc {
            seen_cmd: self.seen_cmd,
            cmd: self.cmd@,
            data: match self.data {
                DataSeenX::DNone => DataSeen::DNone,
                DataSeenX::DStr(ref s) => DataSeen::DStr(s@),
                DataSeenX::DSettings(ref m) => DataSeen::DSettings(m@),
                DataSeenX::DOther => DataSeen::DOther,
            },
        }
    }
}

/// Executable twin of [`scan_env_member`].
#[verifier::rlimit(100)]
#[verifier::spinoff_prover]
fn scan_env_member_x(cs: &Vec<char>, key: &Vec<char>, i: usize, a: EnvAccX) -> (r: Option<
    (EnvAccX, usize),
>)
    requires
        i <= cs@.len(),
    ensures
        match r {
            Some(p) => {
                &&& i <= p.1 <= cs@.len()
                &&& scan_env_member(key@, cs@.skip(i as int), a@) == Some(
                    (p.0@, cs@.skip(p.1 as int)),
                )
            },
            None => scan_env_member(key@, cs@.skip(i as int), a@) is None,
        },
{
    proof {
        reveal(scan_env_member);
    }
    let n = cs.len();
    if chars_eq_lit(key, "command") {
        if a.seen_cmd {
            return None;
        }
        match parse_json_string_x(cs, i) {
            Some((c, j)) => Some((EnvAccX { seen_cmd: true, cmd: c, ..a }, j)),
            None => None,
        }
    } else if chars_eq_lit(key, "data") {
        match a.data {
            DataSeenX::DNone => {},
            _ => {
                return None;
            },
        }
        let ghost s = cs@.skip(i as int);
        if i < n && cs[i] == '"' {
            proof {
                assert(s[0] == cs@[i as int]);
                assert(s.skip(1) =~= cs@.skip(i as int + 1));
            }
            match parse_strchars_x(cs, i + 1) {
                Some((v, j)) => Some(
                    (EnvAccX { data: DataSeenX::DStr(chars_to_string(&v)), ..a }, j),
                ),
                None => None,
            }
        } else if i < n && cs[i] == '{' {
            proof {
                assert(s[0] == cs@[i as int]);
            }
            match parse_settings_obj_x(cs, i) {
                Some((m, j)) => Some((EnvAccX { data: DataSeenX::DSettings(m), ..a }, j)),
                None => match skip_value_x(cs, i, SKIP_DEPTH) {
                    Some(j) => Some((EnvAccX { data: DataSeenX::DOther, ..a }, j)),
                    None => None,
                },
            }
        } else {
            proof {
                if i < cs@.len() {
                    assert(s[0] == cs@[i as int]);
                }
            }
            match skip_value_x(cs, i, SKIP_DEPTH) {
                Some(j) => Some((EnvAccX { data: DataSeenX::DOther, ..a }, j)),
                None => None,
            }
        }
    } else {
        match skip_value_x(cs, i, SKIP_DEPTH) {
            Some(j) => Some((a, j)),
            None => None,
        }
    }
}

/// Outcome of one member step while scanning an envelope.
enum EnvStep {
    EDone(EnvAccX, usize),
    ENext(EnvAccX, usize),
    EFail,
}

/// One `key : value` member step of an envelope scan.
#[verifier::rlimit(100)]
#[verifier::spinoff_prover]
fn scan_env_step(cs: &Vec<char>, cur: usize, a: EnvAccX) -> (r: EnvStep)
    requires
        cur <= cs@.len(),
    ensures
        match r {
            EnvStep::EDone(a2, j) => {
                &&& cur < j <= cs@.len()
                &&& scan_env(cs@.skip(cur as int), a@) == Some((a2@, cs@.skip(j as int)))
            },
            EnvStep::ENext(a2, j) => {
                &&& cur < j <= cs@.len()
                &&& scan_env(cs@.skip(cur as int), a@) == scan_env(cs@.skip(j as int), a2@)
            },
            EnvStep::EFail => scan_env(cs@.skip(cur as int), a@) is None,
        },
{
    proof {
        reveal(scan_env);
    }
    let ghost s = cs@.skip(cur as int);
    let n = cs.len();
    if cur == n || cs[cur] != '"' {
        proof {
            if cur < cs@.len() {
                assert(s[0] == cs@[cur as int]);
            }
        }
        return EnvStep::EFail;
    }
    proof {
        assert(s[0] == cs@[cur as int]);
        assert(s.skip(1) =~= cs@.skip(cur as int + 1));
    }
    match parse_strchars_x(cs, cur + 1) {
        None => EnvStep::EFail,
        Some((key, p1)) => {
            let r2 = ws_to(cs, p1);
            if r2 == n || cs[r2] != ':' {
                proof {
                    if r2 < cs@.len() {
                        assert(cs@.skip(r2 as int)[0] == cs@[r2 as int]);
                    }
                }
                return EnvStep::EFail;
            }
            proof {
                assert(cs@.skip(r2 as int)[0] == cs@[r2 as int]);
                assert(cs@.skip(r2 as int).skip(1) =~= cs@.skip(r2 as int + 1));
            }
            let r3 = ws_to(cs, r2 + 1);
            match scan_env_member_x(cs, &key, r3, a) {
                None => EnvStep::EFail,
                Some((a2, r4)) => {
                    let r5 = ws_to(cs, r4);
                    if r5 == n {
                        return EnvStep::EFail;
                    }
                    proof {
                        assert(cs@.skip(r5 as int)[0] == cs@[r5 as int]);
                        assert(cs@.skip(r5 as int).skip(1) =~= cs@.skip(r5 as int + 1));
                    }
                    if cs[r5] == '}' {
                        EnvStep::EDone(a2, r5 + 1)
                    } else if cs[r5] == ',' {
                        let r6 = ws_to(cs, r5 + 1);
                        if r6 > cur {
                            proof {
                                assert(cs@.skip(r6 as int).len() < s.len());
                            }
                            EnvStep::ENext(a2, r6)
                        } else {
                            proof {
                                assert(cs@.skip(r6 as int).len() >= s.len());
                            }
                            EnvStep::EFail
                        }
                    } else {
                        EnvStep::EFail
                    }
                },
            }
        },
    }
}

/// Executable twin of [`scan_env`].
#[verifier::rlimit(100)]
#[verifier::spinoff_prover]
fn scan_env_x(cs: &Vec<char>, i: usize, a0: EnvAccX) -> (r: Option<(EnvAccX, usize)>)
    requires
        i <= cs@.len(),
    ensures
        match r {
            Some(p) => {
                &&& i <= p.1 <= cs@.len()
                &&& scan_env(cs@.skip(i as int), a0@) == Some((p.0@, cs@.skip(p.1 as int)))
            },
            None => scan_env(cs@.skip(i as int), a0@) is None,
        },
{
    let ghost a0v = a0@;
    let mut a = a0;
    let mut cur = i;
    loop
        invariant
            i <= cur <= cs@.len(),
            a0v == a0@,
            scan_env(cs@.skip(i as int), a0v) == scan_env(cs@.skip(cur as int), a@),
        decreases cs@.len() - cur,
    {
        match scan_env_step(cs, cur, a) {
            EnvStep::EDone(a2, j) => {
                return Some((a2, j));
            },
            EnvStep::ENext(a2, j) => {
                a = a2;
                cur = j;
            },
            EnvStep::EFail => {
                return None;
            },
        }
    }
}

/// Executable twin of [`parse_envelope`].
#[verifier::rlimit(100)]
#[verifier::spinoff_prover]
fn parse_envelope_x(cs: &Vec<char>) -> (r: Option<EnvAccX>)
    ensures
        match r {
            Some(a) => parse_envelope(cs@) == Some(a@),
            None => parse_envelope(cs@) is None,
        },
{
    let n = cs.len();
    proof {
        assert(cs@.skip(0) =~= cs@);
    }
    let t = ws_to(cs, 0);
    if t == n || cs[t] != '{' {
        proof {
            if t < cs@.len() {
                assert(cs@.skip(t as int)[0] == cs@[t as int]);
            }
        }
        return None;
    }
    proof {
        assert(cs@.skip(t as int)[0] == cs@[t as int]);
        assert(cs@.skip(t as int).skip(1) =~= cs@.skip(t as int + 1));
    }
    let u = ws_to(cs, t + 1);
    if u < n && cs[u] == '}' {
        proof {
            assert(cs@.skip(u as int)[0] == cs@[u as int]);
            assert(cs@.skip(u as int).skip(1) =~= cs@.skip(u as int + 1));
        }
        let w = ws_to(cs, u + 1);
        if w == n {
            proof {
                assert(cs@.skip(w as int).len() == 0);
            }
            let a = EnvAccX { seen_cmd: false, cmd: Vec::new(), data: DataSeenX::DNone };
            proof {
                assert(a@ =~= env_acc_init());
            }
            return Some(a);
        } else {
            proof {
                assert(cs@.skip(w as int).len() > 0);
            }
            return None;
        }
    }
    proof {
        if u < cs@.len() {
            assert(cs@.skip(u as int)[0] == cs@[u as int]);
        }
    }
    let a0 = EnvAccX { seen_cmd: false, cmd: Vec::new(), data: DataSeenX::DNone };
    proof {
        assert(a0@ =~= env_acc_init());
    }
    match scan_env_x(cs, u, a0) {
        None => None,
        Some((a, j)) => {
            let w = ws_to(cs, j);
            if w == n {
                proof {
                    assert(cs@.skip(w as int).len() == 0);
                }
                Some(a)
            } else {
                proof {
                    assert(cs@.skip(w as int).len() > 0);
                }
                None
            }
        },
    }
}

// ---------------------------------------------------------------------------
// the public decoders
// ---------------------------------------------------------------------------

/// Decode a client command from a frame's text.
///
/// Returns exactly what the decoding model says: the command on success;
/// `UnknownCommand` when the envelope is well formed but its tag is none of
/// the client commands; `Json` on malformed JSON, a missing member, a
/// duplicate member or a payload of the wrong shape.
#[verifier::rlimit(100)]
#[verifier::spinoff_prover]
pub fn decode_inbound(s: &str) -> (r: Result<ClientCommand, DecodeError>)
    ensures
        match r {
            Ok(c) => decode_inbound_spec(s@) == Ok::<ClientCommandV, DecodeErrorV>(c@),
            Err(e) => decode_inbound_spec(s@) == Err::<ClientCommandV, DecodeErrorV>(e@),
        },
{
    let cs = str_to_chars(s);
    match parse_envelope_x(&cs) {
        None => Err(DecodeError::Json),
        Some(a) => {
            let data_missing = match a.data {
                DataSeenX::DNone => true,
                _ => false,
            };
            if !a.seen_cmd || data_missing {
                return Err(DecodeError::Json);
            }
            if chars_eq_lit(&a.cmd, "SEND_MESSAGE") {
                match a.data {
                    DataSeenX::DStr(m) => Ok(ClientCommand::SendMessage(m)),
                    _ => Err(DecodeError::Json),
                }
            } else if chars_eq_lit(&a.cmd, "CHANGE_SETTINGS") {
                match a.data {
                    DataSeenX::DSettings(v) => Ok(ClientCommand::ChangeSettings(v)),
                    _ => Err(DecodeError::Json),
                }
            } else {
                Err(DecodeError::UnknownCommand(chars_to_string(&a.cmd)))
            }
        },
    }
}

/// Decode a middleware settings notification from a frame's text.
///
/// Returns the settings when the tag is the settings notification;
/// `WrongCommand` with the unexpected tag when the tag names one of the
/// client commands; `Json` otherwise.
#[verifier::rlimit(100)]
#[verifier::spinoff_prover]
pub fn decode_middleware(s: &str) -> (r: Result<MiddlewareCommand, DecodeError>)
    ensures
        match r {
            Ok(c) => decode_middleware_spec(s@) == Ok::<MonitorSettingsV, DecodeErrorV>(c@),
            Err(e) => decode_middleware_spec(s@) == Err::<MonitorSettingsV, DecodeErrorV>(e@),
        },
{
    let cs = str_to_chars(s);
    match parse_envelope_x(&cs) {
        None => Err(DecodeError::Json),
        Some(a) => {
            let data_missing = match a.data {
                DataSeenX::DNone => true,
                _ => false,
            };
            if !a.seen_cmd || data_missing {
                return Err(DecodeError::Json);
            }
            if chars_eq_lit(&a.cmd, "ON_SETTINGS_DID_CHANGE") {
                match a.data {
                    DataSeenX::DSettings(v) => Ok(MiddlewareCommand(v)),
                    _ => Err(DecodeError::Json),
                }
            } else if chars_eq_lit(&a.cmd, "SEND_MESSAGE") || chars_eq_lit(
                &a.cmd,
                "CHANGE_SETTINGS",
            ) {
                Err(DecodeError::WrongCommand(chars_to_string(&a.cmd)))
            } else {
                Err(DecodeError::Json)
            }
        },
    }
}

/// Decode a settings payload alone from a JSON object text.
#[verifier::rlimit(100)]
#[verifier::spinoff_prover]
pub fn decode_settings(s: &str) -> (r: Result<MonitorSettings, DecodeError>)
    ensures
        match r {
            Ok(v) => decode_settings_spec(s@) == Ok::<MonitorSettingsV, DecodeErrorV>(v@),
            Err(e) => decode_settings_spec(s@) == Err::<MonitorSettingsV, DecodeErrorV>(e@),
        },
{
    let cs = str_to_chars(s);
    proof {
        assert(cs@.skip(0) =~= cs@);
    }
    let t = ws_to(&cs, 0);
    match parse_settings_obj_x(&cs, t) {
        None => Err(DecodeError::Json),
        Some((v, j)) => {
            let w = ws_to(&cs, j);
            if w == cs.len() {
                proof {
                    assert(cs@.skip(w as int).len() == 0);
                }
                Ok(v)
            } else {
                proof {
                    assert(cs@.skip(w as int).len() > 0);
                }
                Err(DecodeError::Json)
            }
        },
    }
}

} // verus!
