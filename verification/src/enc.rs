//! Encoding: from protocol values to their canonical wire text.
//!
//! The canonical form is exactly what the middleware puts on the wire: no
//! whitespace, object members in declaration order, optional members omitted
//! when absent, and strings escaped as [`crate::json::esc_char`] says.

use vstd::prelude::*;
use vstd::string::StrSliceExecFns;

use crate::json::{
    chars_to_string, dec_digits, enc_string, esc_char, esc_string, print_u64, str_to_chars,
};
use crate::protocol::{
    ClientCommand, Command, CommandName, Data, MiddlewareCommand, MonitorModelStateV,
    MonitorSettings, MonitorSettingsV, PluggableMonitorSettingV,
};

verus! {

// ---------------------------------------------------------------------------
// specification-level encoders
// ---------------------------------------------------------------------------

pub open spec fn enc_bool(b: bool) -> Seq<char> {
    if b {
        "true"@
    } else {
        "false"@
    }
}

/// An optional boolean member in trailing-comma position.
pub open spec fn enc_opt_bool_member(key: Seq<char>, v: Option<bool>) -> Seq<char> {
    match v {
        Some(b) => enc_string(key) + seq![':'] + enc_bool(b) + seq![','],
        None => Seq::empty(),
    }
}

/// An optional string member in trailing-comma position.
pub open spec fn enc_opt_str_member(key: Seq<char>, v: Option<Seq<char>>) -> Seq<char> {
    match v {
        Some(s) => enc_string(key) + seq![':'] + enc_string(s) + seq![','],
        None => Seq::empty(),
    }
}

/// The optional `lineEnding` member: the marker is encoded as a JSON string.
pub open spec fn enc_opt_eol_member(v: Option<crate::protocol::EndOfLine>) -> Seq<char> {
    match v {
        Some(e) => enc_string("lineEnding"@) + seq![':'] + enc_string(e.spec_encode()) + seq![','],
        None => Seq::empty(),
    }
}

/// The optional `wsPort` member: a bare decimal number.
pub open spec fn enc_opt_port_member(v: Option<u16>) -> Seq<char> {
    match v {
        Some(p) => enc_string("wsPort"@) + seq![':'] + dec_digits(p as nat) + seq![','],
        None => Seq::empty(),
    }
}

/// The optional `type` member of a pluggable setting; the only type is the
/// string `"enum"`.
pub open spec fn enc_opt_type_member(v: Option<crate::protocol::LabelType>) -> Seq<char> {
    match v {
        Some(_) => enc_string("type"@) + seq![':'] + enc_string("enum"@) + seq![','],
        None => Seq::empty(),
    }
}

/// The UI state object; `generate` is always present and closes the object.
pub open spec fn enc_model_state(m: MonitorModelStateV) -> Seq<char> {
    seq!['{'] + enc_opt_bool_member("autoscroll"@, m.autoscroll) + enc_opt_bool_member(
        "timestamp"@,
        m.timestamp,
    ) + enc_opt_eol_member(m.line_ending) + enc_opt_bool_member("interpolate"@, m.interpolate)
        + enc_opt_bool_member("darkTheme"@, m.dark_theme) + enc_opt_port_member(m.ws_port)
        + enc_opt_str_member("serialPort"@, m.serial_port) + enc_opt_bool_member(
        "connected"@,
        m.connected,
    ) + enc_string("generate"@) + seq![':'] + enc_bool(m.generate) + seq!['}']
}

/// The members of a string array after the first, each preceded by a comma.
pub open spec fn enc_str_items(vs: Seq<Seq<char>>) -> Seq<char>
    decreases vs.len(),
{
    if vs.len() == 0 {
        Seq::empty()
    } else {
        seq![','] + enc_string(vs[0]) + enc_str_items(vs.skip(1))
    }
}

/// A JSON array of strings.
pub open spec fn enc_str_array(vs: Seq<Seq<char>>) -> Seq<char> {
    if vs.len() == 0 {
        seq!['[', ']']
    } else {
        seq!['['] + enc_string(vs[0]) + enc_str_items(vs.skip(1)) + seq![']']
    }
}

/// A pluggable monitor setting object; `selectedValue` is always present
/// and closes the object, and `values` is always emitted.
pub open spec fn enc_setting(v: PluggableMonitorSettingV) -> Seq<char> {
    seq!['{'] + enc_opt_str_member("id"@, v.id) + enc_opt_str_member("label"@, v.label)
        + enc_opt_type_member(v.type_) + enc_string("values"@) + seq![':'] + enc_str_array(
        v.values,
    ) + seq![','] + enc_string("selectedValue"@) + seq![':'] + enc_string(v.selected_value)
        + seq!['}']
}

/// The members of a settings map after the first, each preceded by a comma.
pub open spec fn enc_map_items(m: Seq<(Seq<char>, PluggableMonitorSettingV)>) -> Seq<char>
    decreases m.len(),
{
    if m.len() == 0 {
        Seq::empty()
    } else {
        seq![','] + enc_string(m[0].0) + seq![':'] + enc_setting(m[0].1) + enc_map_items(
            m.skip(1),
        )
    }
}

/// The pluggable settings map object, keyed by setting id.
pub open spec fn enc_map(m: Seq<(Seq<char>, PluggableMonitorSettingV)>) -> Seq<char> {
    if m.len() == 0 {
        seq!['{', '}']
    } else {
        seq!['{'] + enc_string(m[0].0) + seq![':'] + enc_setting(m[0].1) + enc_map_items(
            m.skip(1),
        ) + seq!['}']
    }
}

/// The settings payload: both halves optional, in declaration order.
pub open spec fn enc_settings(v: MonitorSettingsV) -> Seq<char> {
    match (v.pluggable_monitor_settings, v.monitor_ui_settings) {
        (None, None) => seq!['{', '}'],
        (Some(p), None) => seq!['{'] + enc_string("pluggableMonitorSettings"@) + seq![':']
            + enc_map(p) + seq!['}'],
        (None, Some(u)) => seq!['{'] + enc_string("monitorUISettings"@) + seq![':']
            + enc_model_state(u) + seq!['}'],
        (Some(p), Some(u)) => seq!['{'] + enc_string("pluggableMonitorSettings"@) + seq![':']
            + enc_map(p) + seq![','] + enc_string("monitorUISettings"@) + seq![':']
            + enc_model_state(u) + seq!['}'],
    }
}

/// The settings notification envelope: `command` first, then `data`.
pub open spec fn enc_middleware(v: MonitorSettingsV) -> Seq<char> {
    seq!['{'] + enc_string("command"@) + seq![':'] + enc_string("ON_SETTINGS_DID_CHANGE"@)
        + seq![','] + enc_string("data"@) + seq![':'] + enc_settings(v) + seq!['}']
}

/// A data-lines frame: a bare JSON array of strings, no envelope.
pub open spec fn enc_data(lines: Seq<Seq<char>>) -> Seq<char> {
    enc_str_array(lines)
}

/// The canonical enveloped frame of a client command, as the plotter UI
/// sends it: `command` first, then the payload under `data`.
pub open spec fn enc_inbound(c: crate::protocol::ClientCommandV) -> Seq<char> {
    match c {
        crate::protocol::ClientCommandV::SendMessage(m) => seq!['{'] + enc_string("command"@)
            + seq![':'] + enc_string("SEND_MESSAGE"@) + seq![','] + enc_string("data"@)
            + seq![':'] + enc_string(m) + seq!['}'],
        crate::protocol::ClientCommandV::ChangeSettings(v) => seq!['{'] + enc_string("command"@)
            + seq![':'] + enc_string("CHANGE_SETTINGS"@) + seq![','] + enc_string("data"@)
            + seq![':'] + enc_settings(v) + seq!['}'],
    }
}

// ---------------------------------------------------------------------------
// executable encoders
// ---------------------------------------------------------------------------

proof fn lemma_esc_string_snoc(s: Seq<char>, c: char)
    ensures
        esc_string(s.push(c)) == esc_string(s) + esc_char(c),
    decreases s.len(),
{
    if s.len() == 0 {
        assert(s.push(c)[0] == c);
        assert(s.push(c).skip(1) =~= Seq::<char>::empty());
        assert(esc_string(s.push(c)) == esc_char(c) + esc_string(Seq::<char>::empty()));
        assert(esc_char(c) + Seq::<char>::empty() =~= esc_char(c));
        assert(esc_string(s) + esc_char(c) =~= esc_char(c));
    } else {
        assert(s.push(c)[0] == s[0]);
        assert(s.push(c).skip(1) =~= s.skip(1).push(c));
        lemma_esc_string_snoc(s.skip(1), c);
        assert(esc_string(s.push(c)) == esc_char(s[0]) + (esc_string(s.skip(1)) + esc_char(c)));
        assert(esc_char(s[0]) + (esc_string(s.skip(1)) + esc_char(c)) =~= (esc_char(s[0])
            + esc_string(s.skip(1))) + esc_char(c));
    }
}

/// Append the literal characters of `lit`.
fn push_lit(out: &mut Vec<char>, lit: &str)
    ensures
        final(out)@ == old(out)@ + lit@,
{
    let n = lit.unicode_len();
    let mut k: usize = 0;
    while k < n
        invariant
            k <= n,
            n == lit@.len(),
            out@ == old(out)@ + lit@.take(k as int),
        decreases n - k,
    {
        out.push(lit.get_char(k));
        proof {
            assert((old(out)@ + lit@.take(k as int)).push(lit@[k as int]) =~= old(out)@
                + lit@.take(k as int + 1));
        }
        k = k + 1;
    }
    proof {
        assert(lit@.take(n as int) =~= lit@);
    }
}

/// Append the escaped form of one string-body character.
fn push_esc_char(out: &mut Vec<char>, c: char)
    ensures
        final(out)@ == old(out)@ + esc_char(c),
{
    if c == '"' {
        out.push('\\');
        out.push('"');
        proof {
            assert(out@ =~= old(out)@ + esc_char(c));
        }
    } else if c == '\\' {
        out.push('\\');
        out.push('\\');
        proof {
            assert(out@ =~= old(out)@ + esc_char(c));
        }
    } else if c == '\u{8}' {
        out.push('\\');
        out.push('b');
        proof {
            assert(out@ =~= old(out)@ + esc_char(c));
        }
    } else if c == '\t' {
        out.push('\\');
        out.push('t');
        proof {
            assert(out@ =~= old(out)@ + esc_char(c));
        }
    } else if c == '\n' {
        out.push('\\');
        out.push('n');
        proof {
            assert(out@ =~= old(out)@ + esc_char(c));
        }
    } else if c == '\u{c}' {
        out.push('\\');
        out.push('f');
        proof {
            assert(out@ =~= old(out)@ + esc_char(c));
        }
    } else if c == '\r' {
        out.push('\\');
        out.push('r');
        proof {
            assert(out@ =~= old(out)@ + esc_char(c));
        }
    } else if (c as u32) < 32 {
        let hi = (c as u32) / 16;
        let lo = (c as u32) % 16;
        out.push('\\');
        out.push('u');
        out.push('0');
        out.push('0');
        out.push(crate::json::hex_char_of(hi));
        out.push(crate::json::hex_char_of(lo));
        proof {
            assert(out@ =~= old(out)@ + esc_char(c));
        }
    } else {
        out.push(c);
        proof {
            assert(out@ =~= old(out)@ + esc_char(c));
        }
    }
}

/// Append a whole JSON string token for the body `s`.
fn push_string_token(out: &mut Vec<char>, s: &str)
    ensures
        final(out)@ == old(out)@ + enc_string(s@),
{
    let cs = str_to_chars(s);
    out.push('"');
    let ghost base = out@;
    let mut k: usize = 0;
    while k < cs.len()
        invariant
            k <= cs@.len(),
            cs@ == s@,
            out@ == base + esc_string(s@.take(k as int)),
        decreases cs@.len() - k,
    {
        proof {
            lemma_esc_string_snoc(s@.take(k as int), s@[k as int]);
            assert(s@.take(k as int).push(s@[k as int]) =~= s@.take(k as int + 1));
        }
        push_esc_char(out, cs[k]);
        proof {
            assert((base + esc_string(s@.take(k as int))) + esc_char(s@[k as int]) =~= base
                + esc_string(s@.take(k as int + 1)));
        }
        k = k + 1;
    }
    out.push('"');
    proof {
        assert(s@.take(s@.len() as int) =~= s@);
        assert(out@ =~= old(out)@ + enc_string(s@));
    }
}

/// Append `"true"` or `"false"`.
fn push_bool(out: &mut Vec<char>, b: bool)
    ensures
        final(out)@ == old(out)@ + enc_bool(b),
{
    if b {
        push_lit(out, "true");
    } else {
        push_lit(out, "false");
    }
}

/// Append the decimal form of a port number.
fn push_port(out: &mut Vec<char>, p: u16)
    ensures
        final(out)@ == old(out)@ + dec_digits(p as nat),
{
    let digits = print_u64(p as u64);
    let mut k: usize = 0;
    while k < digits.len()
        invariant
            k <= digits@.len(),
            digits@ == dec_digits(p as nat),
            out@ == old(out)@ + digits@.take(k as int),
        decreases digits@.len() - k,
    {
        out.push(digits[k]);
        proof {
            assert((old(out)@ + digits@.take(k as int)).push(digits@[k as int]) =~= old(out)@
                + digits@.take(k as int + 1));
        }
        k = k + 1;
    }
    proof {
        assert(digits@.take(digits@.len() as int) =~= digits@);
    }
}

/// Append one optional boolean member in trailing-comma position.
fn push_opt_bool_member(out: &mut Vec<char>, key: &str, v: Option<bool>)
    ensures
        final(out)@ == old(out)@ + enc_opt_bool_member(key@, v),
{
    if let Some(b) = v {
        push_string_token(out, key);
        out.push(':');
        push_bool(out, b);
        out.push(',');
        proof {
            assert(out@ =~= old(out)@ + enc_opt_bool_member(key@, v));
        }
    } else {
        proof {
            assert(out@ =~= old(out)@ + enc_opt_bool_member(key@, v));
        }
    }
}

/// Append one optional string member in trailing-comma position.
fn push_opt_str_member(out: &mut Vec<char>, key: &str, v: &Option<String>)
    ensures
        final(out)@ == old(out)@ + enc_opt_str_member(
            key@,
            match v {
                Some(s) => Some(s@),
                None => None,
            },
        ),
{
    if let Some(s) = v {
        push_string_token(out, key);
        out.push(':');
        push_string_token(out, s.as_str());
        out.push(',');
        proof {
            assert(out@ =~= old(out)@ + enc_opt_str_member(key@, Some(s@)));
        }
    } else {
        proof {
            assert(out@ =~= old(out)@ + enc_opt_str_member(
                key@,
                None,
            ));
        }
    }
}

/// Append the optional `lineEnding` member.
fn push_opt_eol_member(out: &mut Vec<char>, v: Option<crate::protocol::EndOfLine>)
    ensures
        final(out)@ == old(out)@ + enc_opt_eol_member(v),
{
    if let Some(e) = v {
        push_string_token(out, "lineEnding");
        out.push(':');
        let marker = e.encode();
        push_string_token(out, marker.as_str());
        out.push(',');
        proof {
            assert(out@ =~= old(out)@ + enc_opt_eol_member(v));
        }
    } else {
        proof {
            assert(out@ =~= old(out)@ + enc_opt_eol_member(v));
        }
    }
}

/// Append the optional `wsPort` member.
fn push_opt_port_member(out: &mut Vec<char>, v: Option<u16>)
    ensures
        final(out)@ == old(out)@ + enc_opt_port_member(v),
{
    if let Some(p) = v {
        push_string_token(out, "wsPort");
        out.push(':');
        push_port(out, p);
        out.push(',');
        proof {
            assert(out@ =~= old(out)@ + enc_opt_port_member(v));
        }
    } else {
        proof {
            assert(out@ =~= old(out)@ + enc_opt_port_member(v));
        }
    }
}

/// Append the optional `type` member.
fn push_opt_type_member(out: &mut Vec<char>, v: Option<crate::protocol::LabelType>)
    ensures
        final(out)@ == old(out)@ + enc_opt_type_member(v),
{
    if let Some(_t) = v {
        push_string_token(out, "type");
        out.push(':');
        push_string_token(out, "enum");
        out.push(',');
        proof {
            assert(out@ =~= old(out)@ + enc_opt_type_member(v));
        }
    } else {
        proof {
            assert(out@ =~= old(out)@ + enc_opt_type_member(v));
        }
    }
}

/// Append the UI state object.
#[verifier::rlimit(100)]
#[verifier::spinoff_prover]
fn push_model_state(out: &mut Vec<char>, m: &crate::protocol::MonitorModelState)
    ensures
        final(out)@ == old(out)@ + enc_model_state(m@),
{
    out.push('{');
    push_opt_bool_member(out, "autoscroll", m.autoscroll);
    push_opt_bool_member(out, "timestamp", m.timestamp);
    push_opt_eol_member(out, m.line_ending);
    let ghost mid = out@;
    proof {
        assert(mid =~= old(out)@ + seq!['{'] + enc_opt_bool_member("autoscroll"@, m@.autoscroll)
            + enc_opt_bool_member("timestamp"@, m@.timestamp) + enc_opt_eol_member(
            m@.line_ending,
        ));
    }
    push_opt_bool_member(out, "interpolate", m.interpolate);
    push_opt_bool_member(out, "darkTheme", m.dark_theme);
    push_opt_port_member(out, m.ws_port);
    let ghost mid2 = out@;
    proof {
        assert(mid2 =~= mid + enc_opt_bool_member("interpolate"@, m@.interpolate)
            + enc_opt_bool_member("darkTheme"@, m@.dark_theme) + enc_opt_port_member(m@.ws_port));
    }
    push_opt_str_member(out, "serialPort", &m.serial_port);
    push_opt_bool_member(out, "connected", m.connected);
    push_string_token(out, "generate");
    out.push(':');
    push_bool(out, m.generate);
    out.push('}');
    proof {
        assert(out@ =~= mid2 + enc_opt_str_member("serialPort"@, m@.serial_port)
            + enc_opt_bool_member("connected"@, m@.connected) + enc_string("generate"@) + seq![':']
            + enc_bool(m@.generate) + seq!['}']);
        assert(out@ =~= old(out)@ + enc_model_state(m@));
    }
}

/// Append a JSON array of strings.
fn push_str_array(out: &mut Vec<char>, vs: &Vec<String>)
    ensures
        final(out)@ == old(out)@ + enc_str_array(vs@.map_values(|s: String| s@)),
{
    let ghost vsv = vs@.map_values(|s: String| s@);
    out.push('[');
    if vs.len() == 0 {
        out.push(']');
        proof {
            assert(out@ =~= old(out)@ + enc_str_array(vsv));
        }
        return ;
    }
    push_string_token(out, vs[0].as_str());
    let ghost base = out@;
    let mut k: usize = 1;
    while k < vs.len()
        invariant
            1 <= k <= vs@.len(),
            vsv == vs@.map_values(|s: String| s@),
            vsv.len() == vs@.len(),
            out@ == base + enc_str_items(vsv.subrange(1, k as int)),
            base == old(out)@ + seq!['['] + enc_string(vsv[0]),
        decreases vs@.len() - k,
    {
        out.push(',');
        push_string_token(out, vs[k].as_str());
        proof {
            lemma_enc_str_items_snoc(vsv.subrange(1, k as int), vsv[k as int]);
            assert(vsv.subrange(1, k as int).push(vsv[k as int]) =~= vsv.subrange(1, k as int + 1));
            assert(out@ =~= base + enc_str_items(vsv.subrange(1, k as int + 1)));
        }
        k = k + 1;
    }
    out.push(']');
    proof {
        assert(vsv.subrange(1, vsv.len() as int) =~= vsv.skip(1));
        assert(out@ =~= old(out)@ + enc_str_array(vsv));
    }
}

proof fn lemma_enc_str_items_snoc(vs: Seq<Seq<char>>, v: Seq<char>)
    ensures
        enc_str_items(vs.push(v)) == enc_str_items(vs) + (seq![','] + enc_string(v)),
    decreases vs.len(),
{
    let w = vs.push(v);
    if vs.len() == 0 {
        assert(w.len() == 1);
        assert(w[0] == v);
        assert(w.skip(1) =~= Seq::<Seq<char>>::empty());
        assert(enc_str_items(w.skip(1)) == Seq::<char>::empty());
        assert(enc_str_items(w) == seq![','] + enc_string(w[0]) + enc_str_items(w.skip(1)));
        assert(enc_str_items(vs) == Seq::<char>::empty());
        assert(enc_str_items(w) =~= enc_str_items(vs) + (seq![','] + enc_string(v)));
    } else {
        assert(w[0] == vs[0]);
        assert(w.skip(1) =~= vs.skip(1).push(v));
        lemma_enc_str_items_snoc(vs.skip(1), v);
        assert(enc_str_items(w) == seq![','] + enc_string(w[0]) + enc_str_items(w.skip(1)));
        assert(enc_str_items(w.skip(1)) == enc_str_items(vs.skip(1)) + (seq![','] + enc_string(
            v,
        )));
        assert(enc_str_items(vs) == seq![','] + enc_string(vs[0]) + enc_str_items(vs.skip(1)));
        assert(enc_str_items(w) =~= enc_str_items(vs) + (seq![','] + enc_string(v)));
    }
}

proof fn lemma_enc_map_items_snoc(
    m: Seq<(Seq<char>, PluggableMonitorSettingV)>,
    e: (Seq<char>, PluggableMonitorSettingV),
)
    ensures
        enc_map_items(m.push(e)) == enc_map_items(m) + (seq![','] + enc_string(e.0) + seq![':']
            + enc_setting(e.1)),
    decreases m.len(),
{
    let w = m.push(e);
    if m.len() == 0 {
        assert(w.len() == 1);
        assert(w[0] == e);
        assert(w.skip(1) =~= Seq::<(Seq<char>, PluggableMonitorSettingV)>::empty());
        assert(enc_map_items(w.skip(1)) == Seq::<char>::empty());
        assert(enc_map_items(w) == seq![','] + enc_string(w[0].0) + seq![':'] + enc_setting(
            w[0].1,
        ) + enc_map_items(w.skip(1)));
        assert(enc_map_items(m) == Seq::<char>::empty());
        assert(enc_map_items(w) =~= enc_map_items(m) + (seq![','] + enc_string(e.0) + seq![':']
            + enc_setting(e.1)));
    } else {
        assert(w[0] == m[0]);
        assert(w.skip(1) =~= m.skip(1).push(e));
        lemma_enc_map_items_snoc(m.skip(1), e);
        assert(enc_map_items(w) == seq![','] + enc_string(w[0].0) + seq![':'] + enc_setting(
            w[0].1,
        ) + enc_map_items(w.skip(1)));
        assert(enc_map_items(w.skip(1)) == enc_map_items(m.skip(1)) + (seq![','] + enc_string(e.0)
            + seq![':'] + enc_setting(e.1)));
        assert(enc_map_items(m) == seq![','] + enc_string(m[0].0) + seq![':'] + enc_setting(
            m[0].1,
        ) + enc_map_items(m.skip(1)));
        assert(enc_map_items(w) =~= enc_map_items(m) + (seq![','] + enc_string(e.0) + seq![':']
            + enc_setting(e.1)));
    }
}

/// Append one pluggable monitor setting object.
#[verifier::rlimit(100)]
#[verifier::spinoff_prover]
fn push_setting(out: &mut Vec<char>, v: &crate::protocol::PluggableMonitorSetting)
    ensures
        final(out)@ == old(out)@ + enc_setting(v@),
{
    out.push('{');
    push_opt_str_member(out, "id", &v.id);
    push_opt_str_member(out, "label", &v.label);
    push_opt_type_member(out, v.type_);
    let ghost mid = out@;
    proof {
        assert(mid =~= old(out)@ + seq!['{'] + enc_opt_str_member("id"@, v@.id)
            + enc_opt_str_member("label"@, v@.label) + enc_opt_type_member(v@.type_));
    }
    push_string_token(out, "values");
    out.push(':');
    push_str_array(out, &v.values);
    out.push(',');
    push_string_token(out, "selectedValue");
    out.push(':');
    push_string_token(out, v.selected_value.as_str());
    out.push('}');
    proof {
        assert(out@ =~= mid + enc_string("values"@) + seq![':'] + enc_str_array(v@.values)
            + seq![','] + enc_string("selectedValue"@) + seq![':'] + enc_string(v@.selected_value)
            + seq!['}']);
        assert(out@ =~= old(out)@ + enc_setting(v@));
    }
}

/// Append the settings map object.
#[verifier::rlimit(100)]
#[verifier::spinoff_prover]
fn push_map(out: &mut Vec<char>, m: &crate::protocol::PluggableMonitorSettings)
    ensures
        final(out)@ == old(out)@ + enc_map(m@),
{
    let ghost mv = m@;
    out.push('{');
    if m.0.len() == 0 {
        out.push('}');
        proof {
            assert(out@ =~= old(out)@ + enc_map(mv));
        }
        return ;
    }
    push_string_token(out, m.0[0].0.as_str());
    out.push(':');
    push_setting(out, &m.0[0].1);
    let ghost base = out@;
    let mut k: usize = 1;
    while k < m.0.len()
        invariant
            1 <= k <= m.0@.len(),
            mv == m@,
            mv.len() == m.0@.len(),
            forall|q: int| 0 <= q < mv.len() ==> mv[q] == (m.0@[q].0@, m.0@[q].1@),
            out@ == base + enc_map_items(mv.subrange(1, k as int)),
            base == old(out)@ + seq!['{'] + enc_string(mv[0].0) + seq![':'] + enc_setting(
                mv[0].1,
            ),
        decreases m.0@.len() - k,
    {
        out.push(',');
        push_string_token(out, m.0[k].0.as_str());
        out.push(':');
        push_setting(out, &m.0[k].1);
        proof {
            lemma_enc_map_items_snoc(mv.subrange(1, k as int), mv[k as int]);
            assert(mv.subrange(1, k as int).push(mv[k as int]) =~= mv.subrange(1, k as int + 1));
            assert(out@ =~= base + enc_map_items(mv.subrange(1, k as int + 1)));
        }
        k = k + 1;
    }
    out.push('}');
    proof {
        assert(mv.subrange(1, mv.len() as int) =~= mv.skip(1));
        assert(out@ =~= old(out)@ + enc_map(mv));
    }
}

/// Append the settings payload object.
#[verifier::rlimit(100)]
#[verifier::spinoff_prover]
fn push_settings(out: &mut Vec<char>, v: &MonitorSettings)
    ensures
        final(out)@ == old(out)@ + enc_settings(v@),
{
    out.push('{');
    let mut first = true;
    if let Some(p) = &v.pluggable_monitor_settings {
        push_string_token(out, "pluggableMonitorSettings");
        out.push(':');
        push_map(out, p);
        first = false;
    }
    if let Some(u) = &v.monitor_ui_settings {
        if !first {
            out.push(',');
        }
        push_string_token(out, "monitorUISettings");
        out.push(':');
        push_model_state(out, u);
    }
    out.push('}');
    proof {
        assert(out@ =~= old(out)@ + enc_settings(v@));
    }
}

/// Encode a settings payload as its canonical JSON object text.
pub fn encode_settings(v: &MonitorSettings) -> (r: String)
    ensures
        r@ == enc_settings(v@),
{
    let mut out: Vec<char> = Vec::new();
    push_settings(&mut out, v);
    proof {
        assert(out@ =~= enc_settings(v@));
    }
    chars_to_string(&out)
}

/// Encode a settings notification as one enveloped text frame:
/// `{"command":"ON_SETTINGS_DID_CHANGE","data":...}`.
pub fn encode_middleware(cmd: &MiddlewareCommand) -> (r: String)
    ensures
        r@ == enc_middleware(cmd@),
{
    let mut out: Vec<char> = Vec::new();
    out.push('{');
    push_string_token(&mut out, "command");
    out.push(':');
    push_string_token(&mut out, "ON_SETTINGS_DID_CHANGE");
    out.push(',');
    push_string_token(&mut out, "data");
    out.push(':');
    push_settings(&mut out, &cmd.0);
    out.push('}');
    proof {
        assert(out@ =~= enc_middleware(cmd@));
    }
    chars_to_string(&out)
}

/// Encode data lines as one bare-array text frame, e.g.
/// `["L1:1,L2:2\n","A:3\n"]`.
pub fn encode_data(lines: &Vec<String>) -> (r: String)
    ensures
        r@ == enc_data(lines@.map_values(|s: String| s@)),
{
    let mut out: Vec<char> = Vec::new();
    push_str_array(&mut out, lines);
    proof {
        assert(out@ =~= enc_data(lines@.map_values(|s: String| s@)));
    }
    chars_to_string(&out)
}

impl Data {
    /// Encode these data lines as their wire frame.
    pub fn encode(&self) -> (r: String)
        ensures
            r@ == enc_data(self@),
    {
        encode_data(&self.0)
    }
}

/// Encode a client command as its canonical enveloped text frame, as the
/// plotter UI would send it.
#[verifier::rlimit(100)]
#[verifier::spinoff_prover]
pub fn encode_inbound(c: &ClientCommand) -> (r: String)
    ensures
        r@ == enc_inbound(c@),
{
    let mut out: Vec<char> = Vec::new();
    out.push('{');
    push_string_token(&mut out, "command");
    out.push(':');
    match c {
        ClientCommand::SendMessage(m) => {
            push_string_token(&mut out, "SEND_MESSAGE");
            out.push(',');
            push_string_token(&mut out, "data");
            out.push(':');
            push_string_token(&mut out, m.as_str());
        },
        ClientCommand::ChangeSettings(v) => {
            push_string_token(&mut out, "CHANGE_SETTINGS");
            out.push(',');
            push_string_token(&mut out, "data");
            out.push(':');
            push_settings(&mut out, v);
        },
    }
    out.push('}');
    proof {
        assert(out@ =~= enc_inbound(c@));
    }
    chars_to_string(&out)
}

impl ClientCommand {
    /// The envelope form of this command: its name, and its payload as
    /// canonical JSON text.
    pub fn to_command(&self) -> (r: Command<String>)
        ensures
            r.command == (match self {
                ClientCommand::SendMessage(_) => CommandName::SendMessage,
                ClientCommand::ChangeSettings(_) => CommandName::ChangeSettings,
            }),
            r.data@ == (match self@ {
                crate::protocol::ClientCommandV::SendMessage(s) => enc_string(s),
                crate::protocol::ClientCommandV::ChangeSettings(v) => enc_settings(v),
            }),
    {
        match self {
            ClientCommand::SendMessage(s) => {
                let mut out: Vec<char> = Vec::new();
                push_string_token(&mut out, s.as_str());
                proof {
                    assert(out@ =~= enc_string(s@));
                }
                Command { command: CommandName::SendMessage, data: chars_to_string(&out) }
            },
            ClientCommand::ChangeSettings(m) => {
                Command { command: CommandName::ChangeSettings, data: encode_settings(m) }
            },
        }
    }
}

} // verus!
