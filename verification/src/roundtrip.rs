//! The round-trip laws: decoding inverts encoding.
//!
//! Every value the library encodes is decoded back to itself by the
//! decoding model, for every well-formed protocol value.  The proofs walk
//! the canonical text member by member: one inversion lemma per token kind,
//! one step lemma per object member, and the public laws at the end.

use vstd::prelude::*;

use crate::dec::{
    decode_middleware_spec, decode_settings_spec, parse_bool, parse_json_string,
    parse_map, parse_model, parse_opt_bool, parse_opt_eol, parse_opt_label_type,
    parse_opt_port, parse_opt_string, parse_setting, parse_settings_obj, parse_str_array,
    scan_env, scan_env_member, scan_map, scan_model, scan_model_member, scan_setting,
    scan_setting_member, scan_settings, scan_settings_member, scan_str_items, DataSeen, EnvAcc,
    MsAcc, SetAcc, StAcc,
};
use crate::enc::{
    enc_bool, enc_map, enc_map_items, enc_middleware, enc_model_state,
    enc_opt_bool_member, enc_opt_eol_member, enc_opt_port_member, enc_opt_str_member,
    enc_opt_type_member, enc_setting, enc_settings, enc_str_array, enc_str_items,
};
use crate::json::{
    dec_digits, digit_val, enc_string, esc_char, esc_string, hex4_val, hex_val, is_digit,
    is_ws_char, parse_digits, parse_lit, parse_number, parse_strchars, pc_cons, skip_ws,
    spec_digit_char, spec_hex_char,
};
use crate::protocol::{
    map_keys_distinct, ClientCommandV, EndOfLine, MonitorModelStateV, MonitorSettingsV,
    PluggableMonitorSettingV,
};

verus! {

// ---------------------------------------------------------------------------
// tokens
// ---------------------------------------------------------------------------

/// Consuming a literal from text that starts with exactly that literal
/// leaves the rest.
pub proof fn lemma_parse_lit(lit: Seq<char>, rest: Seq<char>)
    ensures
        parse_lit(lit + rest, lit) == Some(rest),
{
    assert((lit + rest).take(lit.len() as int) =~= lit);
    assert((lit + rest).skip(lit.len() as int) =~= rest);
}

/// Skipping whitespace over text that does not start with whitespace does
/// nothing.
proof fn lemma_no_ws(s: Seq<char>)
    requires
        s.len() == 0 || !is_ws_char(s[0]),
    ensures
        skip_ws(s) == s,
{
}

/// The escaped form of one character parses back to that character, in
/// front of any continuation.
#[verifier::rlimit(100)]
#[verifier::spinoff_prover]
proof fn lemma_parse_esc_char(c: char, r: Seq<char>)
    ensures
        parse_strchars(esc_char(c) + r) == pc_cons(c, parse_strchars(r)),
{
    let s = esc_char(c) + r;
    if c == '"' || c == '\\' {
        assert(s[0] == '\\' && s[1] == c);
        assert(s.skip(2) =~= r);
    } else if c == '\u{8}' || c == '\t' || c == '\n' || c == '\u{c}' || c == '\r' {
        assert(s[0] == '\\');
        assert(s.skip(2) =~= r);
    } else if (c as u32) < 32 {
        let hi = ((c as u32) / 16) as nat;
        let lo = ((c as u32) % 16) as nat;
        assert(s[0] == '\\' && s[1] == 'u' && s[2] == '0' && s[3] == '0' && s[4] == spec_hex_char(
            hi,
        ) && s[5] == spec_hex_char(lo));
        assert(hex_val('0') == 0);
        assert(hi < 2 && lo < 16);
        assert(hex_val(spec_hex_char(hi)) == hi);
        assert(hex_val(spec_hex_char(lo)) == lo);
        assert(hex4_val(s[2], s[3], s[4], s[5]) == hi * 16 + lo);
        assert(hi * 16 + lo == c as u32);
        assert((c as u32) < 0xD800);
        assert(((c as u32) as char) == c);
        assert(s.skip(6) =~= r);
    } else {
        assert(s[0] == c);
        assert(s.skip(1) =~= r);
    }
}

/// A whole encoded string body followed by its closing quote parses back
/// to the original content, in front of any continuation.
proof fn lemma_parse_str_body(v: Seq<char>, rest: Seq<char>)
    ensures
        parse_strchars(esc_string(v) + seq!['"'] + rest) == Some((v, rest)),
    decreases v.len(),
{
    if v.len() == 0 {
        assert(esc_string(v) + seq!['"'] + rest =~= seq!['"'] + rest);
        assert((seq!['"'] + rest)[0] == '"');
        assert((seq!['"'] + rest).skip(1) =~= rest);
    } else {
        lemma_parse_str_body(v.skip(1), rest);
        assert(esc_string(v) + seq!['"'] + rest =~= esc_char(v[0]) + (esc_string(v.skip(1))
            + seq!['"'] + rest));
        lemma_parse_esc_char(v[0], esc_string(v.skip(1)) + seq!['"'] + rest);
        assert(parse_strchars(esc_string(v) + seq!['"'] + rest) == pc_cons(
            v[0],
            Some((v.skip(1), rest)),
        ));
        assert(seq![v[0]] + v.skip(1) =~= v);
    }
}

/// A whole encoded string token parses back to the original content, in
/// front of any continuation.
pub proof fn lemma_parse_string(v: Seq<char>, rest: Seq<char>)
    ensures
        parse_json_string(enc_string(v) + rest) == Some((v, rest)),
{
    let s = enc_string(v) + rest;
    assert(s[0] == '"');
    assert(s.skip(1) =~= esc_string(v) + seq!['"'] + rest);
    lemma_parse_str_body(v, rest);
}

/// Folding the printed digits of `n` onto an accumulator.
spec fn acc_shift(acc: nat, n: nat) -> nat
    decreases n,
{
    if n < 10 {
        acc * 10 + n
    } else {
        acc_shift(acc, n / 10) * 10 + n % 10
    }
}

proof fn lemma_parse_digits_dec(n: nat, acc: nat, rest: Seq<char>)
    ensures
        parse_digits(dec_digits(n) + rest, acc) == parse_digits(rest, acc_shift(acc, n)),
    decreases n,
{
    if n < 10 {
        let d = spec_digit_char(n);
        assert(is_digit(d) && digit_val(d) == n);
        assert(dec_digits(n) + rest =~= seq![d] + rest);
        assert((seq![d] + rest)[0] == d);
        assert((seq![d] + rest).skip(1) =~= rest);
    } else {
        let d = spec_digit_char(n % 10);
        assert(is_digit(d) && digit_val(d) == n % 10);
        assert(dec_digits(n) + rest =~= dec_digits(n / 10) + (seq![d] + rest));
        lemma_parse_digits_dec(n / 10, acc, seq![d] + rest);
        assert((seq![d] + rest)[0] == d);
        assert((seq![d] + rest).skip(1) =~= rest);
    }
}

proof fn lemma_acc_shift_zero(n: nat)
    ensures
        acc_shift(0, n) == n,
    decreases n,
{
    if n >= 10 {
        lemma_acc_shift_zero(n / 10);
    }
}

/// The leading digit of a positive number is never `'0'`, and printed
/// digits are digits.
proof fn lemma_dec_digits_head(n: nat)
    ensures
        dec_digits(n).len() >= 1,
        is_digit(dec_digits(n)[0]),
        n > 0 ==> dec_digits(n)[0] != '0',
    decreases n,
{
    if n < 10 {
    } else {
        lemma_dec_digits_head(n / 10);
        assert(dec_digits(n)[0] == dec_digits(n / 10)[0]);
    }
}

/// A printed number parses back to the same value, in front of any
/// continuation that does not begin with a digit.
pub proof fn lemma_parse_number(n: nat, rest: Seq<char>)
    requires
        rest.len() == 0 || !is_digit(rest[0]),
    ensures
        parse_number(dec_digits(n) + rest) == Some((n, rest)),
{
    let s = dec_digits(n) + rest;
    lemma_dec_digits_head(n);
    assert(s[0] == dec_digits(n)[0]);
    lemma_parse_digits_dec(n, 0, rest);
    lemma_acc_shift_zero(n);
    assert(parse_digits(rest, n) == (n, rest));
    if n == 0 {
        assert(dec_digits(0) =~= seq!['0']);
        if s.len() > 1 {
            assert(s[1] == rest[0]);
        }
    } else if n < 10 {
        assert(s[0] != '0');
    } else {
        assert(s[0] != '0');
    }
}

/// A printed boolean parses back, in front of any continuation.
pub proof fn lemma_parse_bool(b: bool, rest: Seq<char>)
    ensures
        parse_bool(enc_bool(b) + rest) == Some((b, rest)),
{
    reveal_strlit("true");
    reveal_strlit("false");
    if b {
        lemma_parse_lit("true"@, rest);
    } else {
        let s = "false"@ + rest;
        assert(s[0] == 'f');
        assert(parse_lit(s, "true"@) is None) by {
            if "true"@.len() <= s.len() {
                assert(s.take("true"@.len() as int)[0] == 'f');
            }
        }
        lemma_parse_lit("false"@, rest);
    }
}

/// `null` never begins a printed boolean, number, string or object.
proof fn lemma_not_null(s: Seq<char>)
    requires
        s.len() > 0,
        s[0] != 'n',
    ensures
        parse_lit(s, "null"@) is None,
{
    reveal_strlit("null");
    if "null"@.len() <= s.len() {
        assert(s.take("null"@.len() as int)[0] == s[0]);
    }
}

// ---------------------------------------------------------------------------
// typed member values
// ---------------------------------------------------------------------------

proof fn lemma_opt_bool_enc(b: bool, rest: Seq<char>)
    ensures
        parse_opt_bool(enc_bool(b) + rest) == Some((Some(b), rest)),
{
    reveal_strlit("true");
    reveal_strlit("false");
    let s = enc_bool(b) + rest;
    assert(s[0] == enc_bool(b)[0]);
    lemma_not_null(s);
    lemma_parse_bool(b, rest);
}

proof fn lemma_opt_eol_enc(e: EndOfLine, rest: Seq<char>)
    ensures
        parse_opt_eol(enc_string(e.spec_encode()) + rest) == Some((Some(e), rest)),
{
    reveal_strlit("");
    reveal_strlit("\n");
    reveal_strlit("\r");
    reveal_strlit("\r\n");
    let s = enc_string(e.spec_encode()) + rest;
    assert(s[0] == '"');
    lemma_not_null(s);
    lemma_parse_string(e.spec_encode(), rest);
    assert(EndOfLine::spec_decode(e.spec_encode()) == Some(e));
}

proof fn lemma_opt_port_enc(p: u16, rest: Seq<char>)
    requires
        rest.len() == 0 || !is_digit(rest[0]),
    ensures
        parse_opt_port(dec_digits(p as nat) + rest) == Some((Some(p), rest)),
{
    let s = dec_digits(p as nat) + rest;
    lemma_dec_digits_head(p as nat);
    assert(s[0] == dec_digits(p as nat)[0]);
    assert(s[0] != 'n');
    lemma_not_null(s);
    lemma_parse_number(p as nat, rest);
}

proof fn lemma_opt_string_enc(v: Seq<char>, rest: Seq<char>)
    ensures
        parse_opt_string(enc_string(v) + rest) == Some((Some(v), rest)),
{
    let s = enc_string(v) + rest;
    assert(s[0] == '"');
    lemma_not_null(s);
    lemma_parse_string(v, rest);
}

proof fn lemma_opt_label_type_enc(rest: Seq<char>)
    ensures
        parse_opt_label_type(enc_string("enum"@) + rest) == Some(
            (Some(crate::protocol::LabelType::Enum), rest),
        ),
{
    let s = enc_string("enum"@) + rest;
    assert(s[0] == '"');
    lemma_not_null(s);
    lemma_parse_string("enum"@, rest);
}

// ---------------------------------------------------------------------------
// the UI state object
// ---------------------------------------------------------------------------

/// One member of the UI state object, in the scan's frame: the key token,
/// a colon, the value text, and a comma or the closing brace.
proof fn lemma_scan_model_frame(
    key: Seq<char>,
    vt: Seq<char>,
    a: MsAcc,
    a2: MsAcc,
    term: char,
    r: Seq<char>,
)
    requires
        vt.len() > 0,
        !is_ws_char(vt[0]),
        term == ',' || term == '}',
        scan_model_member(key, vt + (seq![term] + r), a) == Some((a2, seq![term] + r)),
        term == ',' ==> r.len() > 0 && !is_ws_char(r[0]) && (seq![term] + r).len() < (enc_string(
            key,
        ) + seq![':'] + vt + seq![term] + r).len(),
    ensures
        term == ',' ==> scan_model(enc_string(key) + seq![':'] + vt + seq![term] + r, a)
            == scan_model(r, a2),
        term == '}' ==> scan_model(enc_string(key) + seq![':'] + vt + seq![term] + r, a) == Some(
            (a2, r),
        ),
{
    reveal(scan_model);
    let s = enc_string(key) + seq![':'] + vt + seq![term] + r;
    let tail = seq![':'] + vt + seq![term] + r;
    assert(s[0] == '"');
    assert(s.skip(1) =~= esc_string(key) + seq!['"'] + tail);
    lemma_parse_str_body(key, tail);
    assert(parse_strchars(s.skip(1)) == Some((key, tail)));
    assert(tail[0] == ':');
    lemma_no_ws(tail);
    assert(tail.skip(1) =~= vt + (seq![term] + r));
    lemma_no_ws(vt + (seq![term] + r));
    assert((vt + (seq![term] + r))[0] == vt[0]);
    let r4 = seq![term] + r;
    assert(r4[0] == term);
    lemma_no_ws(r4);
    if term == '}' {
        assert(r4.skip(1) =~= r);
        assert(scan_model(s, a) == Some((a2, r)));
    } else {
        assert(r4.skip(1) =~= r);
        lemma_no_ws(r);
        assert(scan_model(s, a) == scan_model(r, a2));
    }
}

/// The `generate` member closes the UI state object.
proof fn lemma_model_generate(b: bool, a: MsAcc, r: Seq<char>)
    requires
        !a.seen_generate,
    ensures
        scan_model(
            enc_string("generate"@) + seq![':'] + enc_bool(b) + seq!['}'] + r,
            a,
        ) == Some((MsAcc { seen_generate: true, generate: b, ..a }, r)),
{
    reveal(scan_model_member);
    reveal_strlit("generate");
    reveal_strlit("autoscroll");
    reveal_strlit("timestamp");
    reveal_strlit("lineEnding");
    reveal_strlit("interpolate");
    reveal_strlit("darkTheme");
    reveal_strlit("wsPort");
    reveal_strlit("serialPort");
    reveal_strlit("connected");
    reveal_strlit("true");
    reveal_strlit("false");
    let a2 = MsAcc { seen_generate: true, generate: b, ..a };
    let vr = enc_bool(b) + (seq!['}'] + r);
    lemma_parse_bool(b, seq!['}'] + r);
    assert(scan_model_member("generate"@, vr, a) == Some((a2, seq!['}'] + r)));
    assert(enc_bool(b).len() > 0 && !is_ws_char(enc_bool(b)[0]));
    lemma_scan_model_frame("generate"@, enc_bool(b), a, a2, '}', r);
}

/// An optional boolean member of the UI state object, for any of its keys.
proof fn lemma_model_opt_bool(
    key: Seq<char>,
    v: Option<bool>,
    a: MsAcc,
    a2: MsAcc,
    r: Seq<char>,
)
    requires
        r.len() > 0,
        r[0] == '"',
        match v {
            None => a2 == a,
            Some(b) => scan_model_member(key, enc_bool(b) + (seq![','] + r), a) == Some(
                (a2, seq![','] + r),
            ),
        },
    ensures
        scan_model(enc_opt_bool_member(key, v) + r, a) == scan_model(r, a2),
{
    reveal_strlit("true");
    reveal_strlit("false");
    match v {
        None => {
            assert(enc_opt_bool_member(key, v) + r =~= r);
        },
        Some(b) => {
            assert(enc_opt_bool_member(key, v) + r =~= enc_string(key) + seq![':'] + enc_bool(b)
                + seq![','] + r);
            assert(enc_bool(b).len() > 0 && !is_ws_char(enc_bool(b)[0]));
            lemma_scan_model_frame(key, enc_bool(b), a, a2, ',', r);
        },
    }
}

/// The optional `lineEnding` member.
proof fn lemma_model_opt_eol(v: Option<EndOfLine>, a: MsAcc, a2: MsAcc, r: Seq<char>)
    requires
        r.len() > 0,
        r[0] == '"',
        match v {
            None => a2 == a,
            Some(e) => scan_model_member(
                "lineEnding"@,
                enc_string(e.spec_encode()) + (seq![','] + r),
                a,
            ) == Some((a2, seq![','] + r)),
        },
    ensures
        scan_model(enc_opt_eol_member(v) + r, a) == scan_model(r, a2),
{
    match v {
        None => {
            assert(enc_opt_eol_member(v) + r =~= r);
        },
        Some(e) => {
            let vt = enc_string(e.spec_encode());
            assert(enc_opt_eol_member(v) + r =~= enc_string("lineEnding"@) + seq![':'] + vt
                + seq![','] + r);
            assert(vt[0] == '"');
            lemma_scan_model_frame("lineEnding"@, vt, a, a2, ',', r);
        },
    }
}

/// The optional `wsPort` member.
proof fn lemma_model_opt_port(v: Option<u16>, a: MsAcc, a2: MsAcc, r: Seq<char>)
    requires
        r.len() > 0,
        r[0] == '"',
        match v {
            None => a2 == a,
            Some(p) => scan_model_member(
                "wsPort"@,
                dec_digits(p as nat) + (seq![','] + r),
                a,
            ) == Some((a2, seq![','] + r)),
        },
    ensures
        scan_model(enc_opt_port_member(v) + r, a) == scan_model(r, a2),
{
    match v {
        None => {
            assert(enc_opt_port_member(v) + r =~= r);
        },
        Some(p) => {
            let vt = dec_digits(p as nat);
            lemma_dec_digits_head(p as nat);
            assert(enc_opt_port_member(v) + r =~= enc_string("wsPort"@) + seq![':'] + vt
                + seq![','] + r);
            assert(!is_ws_char(vt[0]));
            lemma_scan_model_frame("wsPort"@, vt, a, a2, ',', r);
        },
    }
}

/// The optional `serialPort` member.
proof fn lemma_model_opt_str(v: Option<Seq<char>>, a: MsAcc, a2: MsAcc, r: Seq<char>)
    requires
        r.len() > 0,
        r[0] == '"',
        match v {
            None => a2 == a,
            Some(sp) => scan_model_member(
                "serialPort"@,
                enc_string(sp) + (seq![','] + r),
                a,
            ) == Some((a2, seq![','] + r)),
        },
    ensures
        scan_model(enc_opt_str_member("serialPort"@, v) + r, a) == scan_model(r, a2),
{
    match v {
        None => {
            assert(enc_opt_str_member("serialPort"@, v) + r =~= r);
        },
        Some(sp) => {
            let vt = enc_string(sp);
            assert(enc_opt_str_member("serialPort"@, v) + r =~= enc_string("serialPort"@)
                + seq![':'] + vt + seq![','] + r);
            assert(vt[0] == '"');
            lemma_scan_model_frame("serialPort"@, vt, a, a2, ',', r);
        },
    }
}

/// The nine UI state keys are pairwise distinct.
proof fn lemma_model_keys()
    ensures
        "autoscroll"@.len() == 10,
        "timestamp"@.len() == 9,
        "lineEnding"@.len() == 10,
        "interpolate"@.len() == 11,
        "darkTheme"@.len() == 9,
        "wsPort"@.len() == 6,
        "serialPort"@.len() == 10,
        "connected"@.len() == 9,
        "generate"@.len() == 8,
        "autoscroll"@[0] == 'a',
        "lineEnding"@[0] == 'l',
        "serialPort"@[0] == 's',
        "timestamp"@[0] == 't',
        "darkTheme"@[0] == 'd',
        "connected"@[0] == 'c',
{
    reveal_strlit("autoscroll");
    reveal_strlit("timestamp");
    reveal_strlit("lineEnding");
    reveal_strlit("interpolate");
    reveal_strlit("darkTheme");
    reveal_strlit("wsPort");
    reveal_strlit("serialPort");
    reveal_strlit("connected");
    reveal_strlit("generate");
}

/// The member dispatch facts for each UI state key, on canonical value
/// text followed by a comma.
#[verifier::rlimit(100)]
#[verifier::spinoff_prover]
proof fn lemma_model_member_facts(m: MonitorModelStateV, a: MsAcc, r: Seq<char>)
    ensures
        !a.seen_autoscroll ==> (match m.autoscroll {
            Some(b) => scan_model_member("autoscroll"@, enc_bool(b) + (seq![','] + r), a) == Some(
                (MsAcc { seen_autoscroll: true, autoscroll: Some(b), ..a }, seq![','] + r),
            ),
            None => true,
        }),
        !a.seen_timestamp ==> (match m.timestamp {
            Some(b) => scan_model_member("timestamp"@, enc_bool(b) + (seq![','] + r), a) == Some(
                (MsAcc { seen_timestamp: true, timestamp: Some(b), ..a }, seq![','] + r),
            ),
            None => true,
        }),
        !a.seen_line_ending ==> (match m.line_ending {
            Some(e) => scan_model_member(
                "lineEnding"@,
                enc_string(e.spec_encode()) + (seq![','] + r),
                a,
            ) == Some(
                (MsAcc { seen_line_ending: true, line_ending: Some(e), ..a }, seq![','] + r),
            ),
            None => true,
        }),
        !a.seen_interpolate ==> (match m.interpolate {
            Some(b) => scan_model_member("interpolate"@, enc_bool(b) + (seq![','] + r), a)
                == Some(
                (MsAcc { seen_interpolate: true, interpolate: Some(b), ..a }, seq![','] + r),
            ),
            None => true,
        }),
        !a.seen_dark_theme ==> (match m.dark_theme {
            Some(b) => scan_model_member("darkTheme"@, enc_bool(b) + (seq![','] + r), a) == Some(
                (MsAcc { seen_dark_theme: true, dark_theme: Some(b), ..a }, seq![','] + r),
            ),
            None => true,
        }),
        !a.seen_ws_port ==> (match m.ws_port {
            Some(p) => scan_model_member("wsPort"@, dec_digits(p as nat) + (seq![','] + r), a)
                == Some((MsAcc { seen_ws_port: true, ws_port: Some(p), ..a }, seq![','] + r)),
            None => true,
        }),
        !a.seen_serial_port ==> (match m.serial_port {
            Some(sp) => scan_model_member("serialPort"@, enc_string(sp) + (seq![','] + r), a)
                == Some(
                (MsAcc { seen_serial_port: true, serial_port: Some(sp), ..a }, seq![','] + r),
            ),
            None => true,
        }),
        !a.seen_connected ==> (match m.connected {
            Some(b) => scan_model_member("connected"@, enc_bool(b) + (seq![','] + r), a) == Some(
                (MsAcc { seen_connected: true, connected: Some(b), ..a }, seq![','] + r),
            ),
            None => true,
        }),
{
    reveal(scan_model_member);
    lemma_model_keys();
    if let Some(b) = m.autoscroll {
        lemma_opt_bool_enc(b, seq![','] + r);
    }
    if let Some(b) = m.timestamp {
        lemma_opt_bool_enc(b, seq![','] + r);
    }
    if let Some(e) = m.line_ending {
        lemma_opt_eol_enc(e, seq![','] + r);
    }
    if let Some(b) = m.interpolate {
        lemma_opt_bool_enc(b, seq![','] + r);
    }
    if let Some(b) = m.dark_theme {
        lemma_opt_bool_enc(b, seq![','] + r);
    }
    if let Some(p) = m.ws_port {
        assert((seq![','] + r)[0] == ',');
        lemma_opt_port_enc(p, seq![','] + r);
    }
    if let Some(sp) = m.serial_port {
        lemma_opt_string_enc(sp, seq![','] + r);
    }
    if let Some(b) = m.connected {
        lemma_opt_bool_enc(b, seq![','] + r);
    }
}

/// The text of the last five members of the UI state object.
spec fn ms_tail_text(m: MonitorModelStateV, rest: Seq<char>) -> Seq<char> {
    enc_opt_bool_member("darkTheme"@, m.dark_theme) + (enc_opt_port_member(m.ws_port) + (
    enc_opt_str_member("serialPort"@, m.serial_port) + (enc_opt_bool_member(
        "connected"@,
        m.connected,
    ) + (enc_string("generate"@) + seq![':'] + enc_bool(m.generate) + seq!['}'] + rest))))
}

/// The accumulator after the last five members.
spec fn ms_tail_acc(m: MonitorModelStateV, a: MsAcc) -> MsAcc {
    let a5 = if m.dark_theme is Some {
        MsAcc { seen_dark_theme: true, dark_theme: m.dark_theme, ..a }
    } else {
        a
    };
    let a6 = if m.ws_port is Some {
        MsAcc { seen_ws_port: true, ws_port: m.ws_port, ..a5 }
    } else {
        a5
    };
    let a7 = if m.serial_port is Some {
        MsAcc { seen_serial_port: true, serial_port: m.serial_port, ..a6 }
    } else {
        a6
    };
    let a8 = if m.connected is Some {
        MsAcc { seen_connected: true, connected: m.connected, ..a7 }
    } else {
        a7
    };
    MsAcc { seen_generate: true, generate: m.generate, ..a8 }
}

/// Scanning the last five members of the UI state object.
#[verifier::rlimit(100)]
#[verifier::spinoff_prover]
proof fn lemma_scan_model_tail(m: MonitorModelStateV, a: MsAcc, rest: Seq<char>)
    requires
        !a.seen_dark_theme,
        !a.seen_ws_port,
        !a.seen_serial_port,
        !a.seen_connected,
        !a.seen_generate,
    ensures
        scan_model(ms_tail_text(m, rest), a) == Some((ms_tail_acc(m, a), rest)),
{
    lemma_model_keys();
    let s9 = enc_string("generate"@) + seq![':'] + enc_bool(m.generate) + seq!['}'] + rest;
    let s8 = enc_opt_bool_member("connected"@, m.connected) + s9;
    let s7 = enc_opt_str_member("serialPort"@, m.serial_port) + s8;
    let s6 = enc_opt_port_member(m.ws_port) + s7;
    let s5 = enc_opt_bool_member("darkTheme"@, m.dark_theme) + s6;
    assert(ms_tail_text(m, rest) == s5);
    assert(s9.len() > 0 && s9[0] == '"') by {
        assert(s9[0] == enc_string("generate"@)[0]);
    }
    assert(s8.len() > 0 && s8[0] == '"') by {
        if m.connected is Some {
            assert(s8[0] == enc_string("connected"@)[0]);
        } else {
            assert(s8 =~= s9);
        }
    }
    assert(s7.len() > 0 && s7[0] == '"') by {
        if m.serial_port is Some {
            assert(s7[0] == enc_string("serialPort"@)[0]);
        } else {
            assert(s7 =~= s8);
        }
    }
    assert(s6.len() > 0 && s6[0] == '"') by {
        if m.ws_port is Some {
            assert(s6[0] == enc_string("wsPort"@)[0]);
        } else {
            assert(s6 =~= s7);
        }
    }
    let a5 = if m.dark_theme is Some {
        MsAcc { seen_dark_theme: true, dark_theme: m.dark_theme, ..a }
    } else {
        a
    };
    let a6 = if m.ws_port is Some {
        MsAcc { seen_ws_port: true, ws_port: m.ws_port, ..a5 }
    } else {
        a5
    };
    let a7 = if m.serial_port is Some {
        MsAcc { seen_serial_port: true, serial_port: m.serial_port, ..a6 }
    } else {
        a6
    };
    let a8 = if m.connected is Some {
        MsAcc { seen_connected: true, connected: m.connected, ..a7 }
    } else {
        a7
    };
    lemma_model_member_facts(m, a, s6);
    lemma_model_opt_bool("darkTheme"@, m.dark_theme, a, a5, s6);
    lemma_model_member_facts(m, a5, s7);
    lemma_model_opt_port(m.ws_port, a5, a6, s7);
    lemma_model_member_facts(m, a6, s8);
    lemma_model_opt_str(m.serial_port, a6, a7, s8);
    lemma_model_member_facts(m, a7, s9);
    lemma_model_opt_bool("connected"@, m.connected, a7, a8, s9);
    lemma_model_generate(m.generate, a8, rest);
}

/// The tail text begins with a key quote.
proof fn lemma_ms_tail_head(m: MonitorModelStateV, rest: Seq<char>)
    ensures
        ms_tail_text(m, rest).len() > 0,
        ms_tail_text(m, rest)[0] == '"',
{
    let s5 = ms_tail_text(m, rest);
    if m.dark_theme is Some {
        assert(s5[0] == enc_string("darkTheme"@)[0]);
    } else if m.ws_port is Some {
        assert(s5 =~= enc_opt_port_member(m.ws_port) + (enc_opt_str_member(
            "serialPort"@,
            m.serial_port,
        ) + (enc_opt_bool_member("connected"@, m.connected) + (enc_string("generate"@)
            + seq![':'] + enc_bool(m.generate) + seq!['}'] + rest))));
        assert(s5[0] == enc_string("wsPort"@)[0]);
    } else if m.serial_port is Some {
        assert(s5 =~= enc_opt_str_member("serialPort"@, m.serial_port) + (enc_opt_bool_member(
            "connected"@,
            m.connected,
        ) + (enc_string("generate"@) + seq![':'] + enc_bool(m.generate) + seq!['}'] + rest)));
        assert(s5[0] == enc_string("serialPort"@)[0]);
    } else if m.connected is Some {
        assert(s5 =~= enc_opt_bool_member("connected"@, m.connected) + (enc_string("generate"@)
            + seq![':'] + enc_bool(m.generate) + seq!['}'] + rest));
        assert(s5[0] == enc_string("connected"@)[0]);
    } else {
        assert(s5 =~= enc_string("generate"@) + seq![':'] + enc_bool(m.generate) + seq!['}']
            + rest);
        assert(s5[0] == enc_string("generate"@)[0]);
    }
}

/// The text of the first four members of the UI state object, followed by
/// the tail.
spec fn ms_head_text(m: MonitorModelStateV, rest: Seq<char>) -> Seq<char> {
    enc_opt_bool_member("autoscroll"@, m.autoscroll) + (enc_opt_bool_member(
        "timestamp"@,
        m.timestamp,
    ) + (enc_opt_eol_member(m.line_ending) + (enc_opt_bool_member("interpolate"@, m.interpolate)
        + ms_tail_text(m, rest))))
}

/// The accumulator after the first four members.
spec fn ms_head_acc(m: MonitorModelStateV) -> MsAcc {
    let a0 = crate::dec::ms_acc_init();
    let a1 = if m.autoscroll is Some {
        MsAcc { seen_autoscroll: true, autoscroll: m.autoscroll, ..a0 }
    } else {
        a0
    };
    let a2 = if m.timestamp is Some {
        MsAcc { seen_timestamp: true, timestamp: m.timestamp, ..a1 }
    } else {
        a1
    };
    let a3 = if m.line_ending is Some {
        MsAcc { seen_line_ending: true, line_ending: m.line_ending, ..a2 }
    } else {
        a2
    };
    if m.interpolate is Some {
        MsAcc { seen_interpolate: true, interpolate: m.interpolate, ..a3 }
    } else {
        a3
    }
}

/// Scanning the whole member list of the UI state object.
#[verifier::rlimit(100)]
#[verifier::spinoff_prover]
proof fn lemma_scan_model_all(m: MonitorModelStateV, rest: Seq<char>)
    ensures
        scan_model(ms_head_text(m, rest), crate::dec::ms_acc_init()) == Some(
            (ms_tail_acc(m, ms_head_acc(m)), rest),
        ),
{
    lemma_model_keys();
    lemma_ms_tail_head(m, rest);
    let s5 = ms_tail_text(m, rest);
    let s4 = enc_opt_bool_member("interpolate"@, m.interpolate) + s5;
    let s3 = enc_opt_eol_member(m.line_ending) + s4;
    let s2 = enc_opt_bool_member("timestamp"@, m.timestamp) + s3;
    let s1 = enc_opt_bool_member("autoscroll"@, m.autoscroll) + s2;
    assert(ms_head_text(m, rest) == s1);
    assert(s4.len() > 0 && s4[0] == '"') by {
        if m.interpolate is Some {
            assert(s4[0] == enc_string("interpolate"@)[0]);
        } else {
            assert(s4 =~= s5);
        }
    }
    assert(s3.len() > 0 && s3[0] == '"') by {
        if m.line_ending is Some {
            assert(s3[0] == enc_string("lineEnding"@)[0]);
        } else {
            assert(s3 =~= s4);
        }
    }
    assert(s2.len() > 0 && s2[0] == '"') by {
        if m.timestamp is Some {
            assert(s2[0] == enc_string("timestamp"@)[0]);
        } else {
            assert(s2 =~= s3);
        }
    }
    let a0 = crate::dec::ms_acc_init();
    let a1 = if m.autoscroll is Some {
        MsAcc { seen_autoscroll: true, autoscroll: m.autoscroll, ..a0 }
    } else {
        a0
    };
    let a2 = if m.timestamp is Some {
        MsAcc { seen_timestamp: true, timestamp: m.timestamp, ..a1 }
    } else {
        a1
    };
    let a3 = if m.line_ending is Some {
        MsAcc { seen_line_ending: true, line_ending: m.line_ending, ..a2 }
    } else {
        a2
    };
    let a4 = if m.interpolate is Some {
        MsAcc { seen_interpolate: true, interpolate: m.interpolate, ..a3 }
    } else {
        a3
    };
    assert(a4 == ms_head_acc(m));
    lemma_model_member_facts(m, a0, s2);
    lemma_model_opt_bool("autoscroll"@, m.autoscroll, a0, a1, s2);
    lemma_model_member_facts(m, a1, s3);
    lemma_model_opt_bool("timestamp"@, m.timestamp, a1, a2, s3);
    lemma_model_member_facts(m, a2, s4);
    lemma_model_opt_eol(m.line_ending, a2, a3, s4);
    lemma_model_member_facts(m, a3, s5);
    lemma_model_opt_bool("interpolate"@, m.interpolate, a3, a4, s5);
    lemma_scan_model_tail(m, a4, rest);
}

/// The canonical UI state text is the brace and the member list.
#[verifier::rlimit(100)]
#[verifier::spinoff_prover]
proof fn lemma_model_text_shape(m: MonitorModelStateV, rest: Seq<char>)
    ensures
        enc_model_state(m) + rest == seq!['{'] + ms_head_text(m, rest),
{
    let a1 = enc_opt_bool_member("autoscroll"@, m.autoscroll);
    let a2 = enc_opt_bool_member("timestamp"@, m.timestamp);
    let a3 = enc_opt_eol_member(m.line_ending);
    let a4 = enc_opt_bool_member("interpolate"@, m.interpolate);
    let a5 = enc_opt_bool_member("darkTheme"@, m.dark_theme);
    let a6 = enc_opt_port_member(m.ws_port);
    let a7 = enc_opt_str_member("serialPort"@, m.serial_port);
    let a8 = enc_opt_bool_member("connected"@, m.connected);
    let t9a = enc_string("generate"@) + seq![':'] + enc_bool(m.generate) + seq!['}'];
    let t9 = t9a + rest;
    let s8 = a8 + t9;
    let s7 = a7 + s8;
    let s6 = a6 + s7;
    let s5 = a5 + s6;
    let s4 = a4 + s5;
    let s3 = a3 + s4;
    let s2 = a2 + s3;
    let s1 = a1 + s2;
    assert(ms_head_text(m, rest) == s1);
    let p0 = seq!['{'];
    let p1 = p0 + a1;
    let p2 = p1 + a2;
    let p3 = p2 + a3;
    let p4 = p3 + a4;
    let p5 = p4 + a5;
    let p6 = p5 + a6;
    let p7 = p6 + a7;
    let p8 = p7 + a8;
    assert(p0 + s1 =~= p1 + s2);
    assert(p1 + s2 =~= p2 + s3);
    assert(p2 + s3 =~= p3 + s4);
    assert(p3 + s4 =~= p4 + s5);
    assert(p4 + s5 =~= p5 + s6);
    assert(p5 + s6 =~= p6 + s7);
    assert(p6 + s7 =~= p7 + s8);
    assert(p7 + s8 =~= p8 + t9);
    assert(p8 + t9 =~= (p8 + t9a) + rest);
    assert(p8 + t9a =~= p8 + enc_string("generate"@) + seq![':'] + enc_bool(m.generate)
        + seq!['}']);
    assert(enc_model_state(m) =~= p8 + enc_string("generate"@) + seq![':'] + enc_bool(m.generate)
        + seq!['}']);
}

/// The canonical UI state object parses back to the original state, in
/// front of any continuation.
#[verifier::rlimit(100)]
#[verifier::spinoff_prover]
pub proof fn lemma_parse_model_enc(m: MonitorModelStateV, rest: Seq<char>)
    ensures
        parse_model(enc_model_state(m) + rest) == Some((m, rest)),
{
    lemma_scan_model_all(m, rest);
    let s1 = ms_head_text(m, rest);
    lemma_ms_tail_head(m, rest);
    assert(s1.len() > 0 && s1[0] == '"') by {
        lemma_model_keys();
        if m.autoscroll is Some {
            assert(s1[0] == enc_string("autoscroll"@)[0]);
        } else if m.timestamp is Some {
            assert(s1 =~= enc_opt_bool_member("timestamp"@, m.timestamp) + (enc_opt_eol_member(
                m.line_ending,
            ) + (enc_opt_bool_member("interpolate"@, m.interpolate) + ms_tail_text(m, rest))));
            assert(s1[0] == enc_string("timestamp"@)[0]);
        } else if m.line_ending is Some {
            assert(s1 =~= enc_opt_eol_member(m.line_ending) + (enc_opt_bool_member(
                "interpolate"@,
                m.interpolate,
            ) + ms_tail_text(m, rest)));
            assert(s1[0] == enc_string("lineEnding"@)[0]);
        } else if m.interpolate is Some {
            assert(s1 =~= enc_opt_bool_member("interpolate"@, m.interpolate) + ms_tail_text(
                m,
                rest,
            ));
            assert(s1[0] == enc_string("interpolate"@)[0]);
        } else {
            assert(s1 =~= ms_tail_text(m, rest));
        }
    }
    let a9 = ms_tail_acc(m, ms_head_acc(m));
    let s = enc_model_state(m) + rest;
    lemma_model_text_shape(m, rest);
    assert(s == seq!['{'] + s1);
    assert(s[0] == '{');
    assert(s.skip(1) =~= s1);
    lemma_no_ws(s1);
    assert(parse_model(s) == Some((crate::dec::ms_finish(a9), rest)));
    assert(crate::dec::ms_finish(a9) =~= m);
}

// ---------------------------------------------------------------------------
// arrays of strings
// ---------------------------------------------------------------------------

#[verifier::rlimit(100)]
#[verifier::spinoff_prover]
proof fn lemma_scan_str_items_enc(vs: Seq<Seq<char>>, acc: Seq<Seq<char>>, rest: Seq<char>)
    requires
        vs.len() >= 1,
    ensures
        scan_str_items(
            enc_string(vs[0]) + (enc_str_items(vs.skip(1)) + (seq![']'] + rest)),
            acc,
        ) == Some((acc + vs, rest)),
    decreases vs.len(),
{
    let tail = enc_str_items(vs.skip(1)) + (seq![']'] + rest);
    let s = enc_string(vs[0]) + tail;
    lemma_parse_string(vs[0], tail);
    if vs.len() == 1 {
        assert(enc_str_items(vs.skip(1)) =~= Seq::<char>::empty());
        assert(tail =~= seq![']'] + rest);
        assert(tail[0] == ']');
        lemma_no_ws(tail);
        assert(tail.skip(1) =~= rest);
        assert(acc.push(vs[0]) =~= acc + vs);
    } else {
        let rem = vs.skip(1);
        let inner = enc_string(rem[0]) + (enc_str_items(rem.skip(1)) + (seq![']'] + rest));
        assert(enc_str_items(rem) == seq![','] + enc_string(rem[0]) + enc_str_items(rem.skip(1)));
        assert(tail =~= seq![','] + inner);
        assert(tail[0] == ',');
        lemma_no_ws(tail);
        assert(tail.skip(1) =~= inner);
        assert(inner[0] == '"');
        lemma_no_ws(inner);
        lemma_scan_str_items_enc(rem, acc.push(vs[0]), rest);
        assert(inner.len() < s.len());
        assert(acc.push(vs[0]) + rem =~= acc + vs);
    }
}

/// A canonical string array parses back, in front of any continuation.
#[verifier::rlimit(100)]
#[verifier::spinoff_prover]
proof fn lemma_parse_str_array_enc(vs: Seq<Seq<char>>, rest: Seq<char>)
    ensures
        parse_str_array(enc_str_array(vs) + rest) == Some((vs, rest)),
{
    let s = enc_str_array(vs) + rest;
    if vs.len() == 0 {
        assert(s =~= seq!['[', ']'] + rest);
        assert(s[0] == '[');
        assert(s.skip(1) =~= seq![']'] + rest);
        assert((seq![']'] + rest)[0] == ']');
        lemma_no_ws(seq![']'] + rest);
        assert((seq![']'] + rest).skip(1) =~= rest);
        assert(parse_str_array(s) == Some((Seq::<Seq<char>>::empty(), rest)));
        assert(Seq::<Seq<char>>::empty() =~= vs);
    } else {
        let inner = enc_string(vs[0]) + (enc_str_items(vs.skip(1)) + (seq![']'] + rest));
        assert(s =~= seq!['['] + inner);
        assert(s[0] == '[');
        assert(s.skip(1) =~= inner);
        assert(inner[0] == '"');
        lemma_no_ws(inner);
        lemma_scan_str_items_enc(vs, Seq::empty(), rest);
        assert(Seq::<Seq<char>>::empty() + vs =~= vs);
    }
}

// ---------------------------------------------------------------------------
// pluggable setting objects
// ---------------------------------------------------------------------------

/// One member of a setting object, in the scan's frame.
proof fn lemma_scan_setting_frame(
    key: Seq<char>,
    vt: Seq<char>,
    a: StAcc,
    a2: StAcc,
    term: char,
    r: Seq<char>,
)
    requires
        vt.len() > 0,
        !is_ws_char(vt[0]),
        term == ',' || term == '}',
        scan_setting_member(key, vt + (seq![term] + r), a) == Some((a2, seq![term] + r)),
        term == ',' ==> r.len() > 0 && !is_ws_char(r[0]) && (seq![term] + r).len() < (enc_string(
            key,
        ) + seq![':'] + vt + seq![term] + r).len(),
    ensures
        term == ',' ==> scan_setting(enc_string(key) + seq![':'] + vt + seq![term] + r, a)
            == scan_setting(r, a2),
        term == '}' ==> scan_setting(enc_string(key) + seq![':'] + vt + seq![term] + r, a)
            == Some((a2, r)),
{
    reveal(scan_setting);
    let s = enc_string(key) + seq![':'] + vt + seq![term] + r;
    let tail = seq![':'] + vt + seq![term] + r;
    assert(s[0] == '"');
    assert(s.skip(1) =~= esc_string(key) + seq!['"'] + tail);
    lemma_parse_str_body(key, tail);
    assert(tail[0] == ':');
    lemma_no_ws(tail);
    assert(tail.skip(1) =~= vt + (seq![term] + r));
    lemma_no_ws(vt + (seq![term] + r));
    assert((vt + (seq![term] + r))[0] == vt[0]);
    let r4 = seq![term] + r;
    assert(r4[0] == term);
    lemma_no_ws(r4);
    assert(r4.skip(1) =~= r);
    if term == ',' {
        lemma_no_ws(r);
    }
}

/// The five setting keys are pairwise distinct by length.
proof fn lemma_setting_keys()
    ensures
        "id"@.len() == 2,
        "label"@.len() == 5,
        "type"@.len() == 4,
        "values"@.len() == 6,
        "selectedValue"@.len() == 13,
{
    reveal_strlit("id");
    reveal_strlit("label");
    reveal_strlit("type");
    reveal_strlit("values");
    reveal_strlit("selectedValue");
}

/// An optional string member of a setting object, for `id` or `label`.
proof fn lemma_setting_opt_str(
    key: Seq<char>,
    v: Option<Seq<char>>,
    a: StAcc,
    a2: StAcc,
    r: Seq<char>,
)
    requires
        r.len() > 0,
        r[0] == '"',
        match v {
            None => a2 == a,
            Some(sp) => scan_setting_member(key, enc_string(sp) + (seq![','] + r), a) == Some(
                (a2, seq![','] + r),
            ),
        },
    ensures
        scan_setting(enc_opt_str_member(key, v) + r, a) == scan_setting(r, a2),
{
    match v {
        None => {
            assert(enc_opt_str_member(key, v) + r =~= r);
        },
        Some(sp) => {
            let vt = enc_string(sp);
            assert(enc_opt_str_member(key, v) + r =~= enc_string(key) + seq![':'] + vt
                + seq![','] + r);
            assert(vt[0] == '"');
            lemma_scan_setting_frame(key, vt, a, a2, ',', r);
        },
    }
}

/// The optional `type` member of a setting object.
proof fn lemma_setting_opt_type(
    v: Option<crate::protocol::LabelType>,
    a: StAcc,
    a2: StAcc,
    r: Seq<char>,
)
    requires
        r.len() > 0,
        r[0] == '"',
        match v {
            None => a2 == a,
            Some(_t) => scan_setting_member(
                "type"@,
                enc_string("enum"@) + (seq![','] + r),
                a,
            ) == Some((a2, seq![','] + r)),
        },
    ensures
        scan_setting(enc_opt_type_member(v) + r, a) == scan_setting(r, a2),
{
    match v {
        None => {
            assert(enc_opt_type_member(v) + r =~= r);
        },
        Some(_t) => {
            let vt = enc_string("enum"@);
            assert(enc_opt_type_member(v) + r =~= enc_string("type"@) + seq![':'] + vt
                + seq![','] + r);
            assert(vt[0] == '"');
            lemma_scan_setting_frame("type"@, vt, a, a2, ',', r);
        },
    }
}

/// The member dispatch facts for each setting key, on canonical value text.
#[verifier::rlimit(100)]
#[verifier::spinoff_prover]
proof fn lemma_setting_member_facts(v: PluggableMonitorSettingV, a: StAcc, r: Seq<char>)
    ensures
        !a.seen_id ==> (match v.id {
            Some(sp) => scan_setting_member("id"@, enc_string(sp) + (seq![','] + r), a) == Some(
                (StAcc { seen_id: true, id: Some(sp), ..a }, seq![','] + r),
            ),
            None => true,
        }),
        !a.seen_label ==> (match v.label {
            Some(sp) => scan_setting_member("label"@, enc_string(sp) + (seq![','] + r), a)
                == Some((StAcc { seen_label: true, label: Some(sp), ..a }, seq![','] + r)),
            None => true,
        }),
        !a.seen_type ==> (match v.type_ {
            Some(t) => scan_setting_member("type"@, enc_string("enum"@) + (seq![','] + r), a)
                == Some((StAcc { seen_type: true, type_: Some(t), ..a }, seq![','] + r)),
            None => true,
        }),
        !a.seen_values ==> scan_setting_member(
            "values"@,
            enc_str_array(v.values) + (seq![','] + r),
            a,
        ) == Some((StAcc { seen_values: true, values: v.values, ..a }, seq![','] + r)),
        !a.seen_sel ==> scan_setting_member(
            "selectedValue"@,
            enc_string(v.selected_value) + (seq!['}'] + r),
            a,
        ) == Some((StAcc { seen_sel: true, sel: v.selected_value, ..a }, seq!['}'] + r)),
{
    reveal(scan_setting_member);
    lemma_setting_keys();
    if let Some(sp) = v.id {
        lemma_opt_string_enc(sp, seq![','] + r);
    }
    if let Some(sp) = v.label {
        lemma_opt_string_enc(sp, seq![','] + r);
    }
    if let Some(t) = v.type_ {
        lemma_opt_label_type_enc(seq![','] + r);
    }
    lemma_parse_str_array_enc(v.values, seq![','] + r);
    lemma_parse_string(v.selected_value, seq!['}'] + r);
}

/// The accumulator after the three optional members of a setting object.
spec fn st_head_acc(v: PluggableMonitorSettingV) -> StAcc {
    let a0 = crate::dec::st_acc_init();
    let a1 = if v.id is Some {
        StAcc { seen_id: true, id: v.id, ..a0 }
    } else {
        a0
    };
    let a2 = if v.label is Some {
        StAcc { seen_label: true, label: v.label, ..a1 }
    } else {
        a1
    };
    if v.type_ is Some {
        StAcc { seen_type: true, type_: v.type_, ..a2 }
    } else {
        a2
    }
}

/// The text of the always-present members of a setting object.
spec fn st_tail_text(v: PluggableMonitorSettingV, rest: Seq<char>) -> Seq<char> {
    enc_string("values"@) + seq![':'] + enc_str_array(v.values) + seq![','] + (enc_string(
        "selectedValue"@,
    ) + seq![':'] + enc_string(v.selected_value) + seq!['}'] + rest)
}

/// Scanning the member list of a setting object.
#[verifier::rlimit(100)]
#[verifier::spinoff_prover]
proof fn lemma_scan_setting_all(v: PluggableMonitorSettingV, rest: Seq<char>)
    ensures
        scan_setting(
            enc_opt_str_member("id"@, v.id) + (enc_opt_str_member("label"@, v.label) + (
            enc_opt_type_member(v.type_) + st_tail_text(v, rest))),
            crate::dec::st_acc_init(),
        ) == Some(
            (
                StAcc {
                    seen_values: true,
                    values: v.values,
                    seen_sel: true,
                    sel: v.selected_value,
                    ..st_head_acc(v)
                },
                rest,
            ),
        ),
{
    lemma_setting_keys();
    let s5 = enc_string("selectedValue"@) + seq![':'] + enc_string(v.selected_value) + seq!['}']
        + rest;
    let s4 = st_tail_text(v, rest);
    let s3 = enc_opt_type_member(v.type_) + s4;
    let s2 = enc_opt_str_member("label"@, v.label) + s3;
    let s1 = enc_opt_str_member("id"@, v.id) + s2;
    assert(s5[0] == enc_string("selectedValue"@)[0]);
    assert(s4.len() > 0 && s4[0] == '"') by {
        assert(s4[0] == enc_string("values"@)[0]);
    }
    assert(s3.len() > 0 && s3[0] == '"') by {
        if v.type_ is Some {
            assert(s3[0] == enc_string("type"@)[0]);
        } else {
            assert(s3 =~= s4);
        }
    }
    assert(s2.len() > 0 && s2[0] == '"') by {
        if v.label is Some {
            assert(s2[0] == enc_string("label"@)[0]);
        } else {
            assert(s2 =~= s3);
        }
    }
    let a0 = crate::dec::st_acc_init();
    let a1 = if v.id is Some {
        StAcc { seen_id: true, id: v.id, ..a0 }
    } else {
        a0
    };
    let a2 = if v.label is Some {
        StAcc { seen_label: true, label: v.label, ..a1 }
    } else {
        a1
    };
    let a3 = if v.type_ is Some {
        StAcc { seen_type: true, type_: v.type_, ..a2 }
    } else {
        a2
    };
    assert(a3 == st_head_acc(v));
    lemma_setting_member_facts(v, a0, s2);
    lemma_setting_opt_str("id"@, v.id, a0, a1, s2);
    lemma_setting_member_facts(v, a1, s3);
    lemma_setting_opt_str("label"@, v.label, a1, a2, s3);
    lemma_setting_member_facts(v, a2, s4);
    lemma_setting_opt_type(v.type_, a2, a3, s4);
    // the `values` member
    let a4 = StAcc { seen_values: true, values: v.values, ..a3 };
    lemma_setting_member_facts(v, a3, s5);
    assert(st_tail_text(v, rest) =~= enc_string("values"@) + seq![':'] + enc_str_array(v.values)
        + seq![','] + s5);
    assert(enc_str_array(v.values).len() > 0 && !is_ws_char(enc_str_array(v.values)[0])) by {
        if v.values.len() == 0 {
            assert(enc_str_array(v.values)[0] == '[');
        } else {
            assert(enc_str_array(v.values)[0] == '[');
        }
    }
    lemma_scan_setting_frame("values"@, enc_str_array(v.values), a3, a4, ',', s5);
    // the `selectedValue` member
    let a5 = StAcc { seen_sel: true, sel: v.selected_value, ..a4 };
    lemma_setting_member_facts(v, a4, rest);
    assert(enc_string(v.selected_value)[0] == '"');
    lemma_scan_setting_frame("selectedValue"@, enc_string(v.selected_value), a4, a5, '}', rest);
    assert(scan_setting(s1, a0) == Some((a5, rest)));
}

/// The canonical setting text is the brace and the member list.
#[verifier::rlimit(100)]
#[verifier::spinoff_prover]
proof fn lemma_setting_text_shape(v: PluggableMonitorSettingV, rest: Seq<char>)
    ensures
        enc_setting(v) + rest == seq!['{'] + (enc_opt_str_member("id"@, v.id) + (
        enc_opt_str_member("label"@, v.label) + (enc_opt_type_member(v.type_) + st_tail_text(
            v,
            rest,
        )))),
{
    let a1 = enc_opt_str_member("id"@, v.id);
    let a2 = enc_opt_str_member("label"@, v.label);
    let a3 = enc_opt_type_member(v.type_);
    let t5a = enc_string("selectedValue"@) + seq![':'] + enc_string(v.selected_value) + seq!['}'];
    let t5 = t5a + rest;
    let t4 = enc_string("values"@) + seq![':'] + enc_str_array(v.values) + seq![','] + t5;
    assert(st_tail_text(v, rest) =~= t4);
    let s3 = a3 + t4;
    let s2 = a2 + s3;
    let s1 = a1 + s2;
    let p0 = seq!['{'];
    let p1 = p0 + a1;
    let p2 = p1 + a2;
    let p3 = p2 + a3;
    let p4 = p3 + enc_string("values"@) + seq![':'] + enc_str_array(v.values) + seq![','];
    assert(p0 + s1 =~= p1 + s2);
    assert(p1 + s2 =~= p2 + s3);
    assert(p2 + s3 =~= p3 + t4);
    assert(p3 + t4 =~= p4 + t5);
    assert(p4 + t5 =~= (p4 + t5a) + rest);
    assert(p4 + t5a =~= p4 + enc_string("selectedValue"@) + seq![':'] + enc_string(
        v.selected_value,
    ) + seq!['}']);
    assert(enc_setting(v) =~= p4 + enc_string("selectedValue"@) + seq![':'] + enc_string(
        v.selected_value,
    ) + seq!['}']);
    assert(seq!['{'] + (a1 + (a2 + (a3 + st_tail_text(v, rest)))) =~= p0 + s1);
}

/// The canonical setting object parses back, in front of any continuation.
#[verifier::rlimit(100)]
#[verifier::spinoff_prover]
pub proof fn lemma_parse_setting_enc(v: PluggableMonitorSettingV, rest: Seq<char>)
    ensures
        parse_setting(enc_setting(v) + rest) == Some((v, rest)),
{
    lemma_setting_keys();
    lemma_scan_setting_all(v, rest);
    lemma_setting_text_shape(v, rest);
    let s1 = enc_opt_str_member("id"@, v.id) + (enc_opt_str_member("label"@, v.label) + (
    enc_opt_type_member(v.type_) + st_tail_text(v, rest)));
    let s = enc_setting(v) + rest;
    assert(s == seq!['{'] + s1);
    assert(s[0] == '{');
    assert(s.skip(1) =~= s1);
    assert(s1.len() > 0 && s1[0] == '"') by {
        if v.id is Some {
            assert(s1[0] == enc_string("id"@)[0]);
        } else if v.label is Some {
            assert(s1 =~= enc_opt_str_member("label"@, v.label) + (enc_opt_type_member(v.type_)
                + st_tail_text(v, rest)));
            assert(s1[0] == enc_string("label"@)[0]);
        } else if v.type_ is Some {
            assert(s1 =~= enc_opt_type_member(v.type_) + st_tail_text(v, rest));
            assert(s1[0] == enc_string("type"@)[0]);
        } else {
            assert(s1 =~= st_tail_text(v, rest));
            assert(s1[0] == enc_string("values"@)[0]);
        }
    }
    lemma_no_ws(s1);
    let a5 = StAcc {
        seen_values: true,
        values: v.values,
        seen_sel: true,
        sel: v.selected_value,
        ..st_head_acc(v)
    };
    assert(parse_setting(s) == Some((crate::dec::st_finish(a5).unwrap(), rest)));
    assert(crate::dec::st_finish(a5).unwrap() =~= v);
}

// ---------------------------------------------------------------------------
// the settings map
// ---------------------------------------------------------------------------

/// Scanning the remaining entries of a canonical settings map, having
/// accumulated `pre`; the keys of the whole map are pairwise distinct.
#[verifier::rlimit(100)]
#[verifier::spinoff_prover]
proof fn lemma_scan_map_entries(
    pre: Seq<(Seq<char>, PluggableMonitorSettingV)>,
    rem: Seq<(Seq<char>, PluggableMonitorSettingV)>,
    rest: Seq<char>,
)
    requires
        rem.len() >= 1,
        map_keys_distinct(pre + rem),
    ensures
        scan_map(
            enc_string(rem[0].0) + (seq![':'] + (enc_setting(rem[0].1) + (enc_map_items(
                rem.skip(1),
            ) + (seq!['}'] + rest)))),
            pre,
        ) == Some((pre + rem, rest)),
    decreases rem.len(),
{
    let key = rem[0].0;
    let v = rem[0].1;
    let after = enc_map_items(rem.skip(1)) + (seq!['}'] + rest);
    let tail = seq![':'] + (enc_setting(v) + after);
    let s = enc_string(key) + tail;
    assert(s[0] == '"');
    assert(s.skip(1) =~= esc_string(key) + seq!['"'] + tail);
    lemma_parse_str_body(key, tail);
    assert(tail[0] == ':');
    lemma_no_ws(tail);
    assert(tail.skip(1) =~= enc_setting(v) + after);
    assert((enc_setting(v) + after)[0] == '{');
    lemma_no_ws(enc_setting(v) + after);
    lemma_parse_setting_enc(v, after);
    // the key is new to the accumulator
    assert((pre + rem)[pre.len() as int] == rem[0]);
    assert forall|q: int| 0 <= q < pre.len() implies pre[q].0 != key by {
        assert((pre + rem)[q] == pre[q]);
    }
    crate::dec::lemma_key_index_props(pre, key);
    assert(crate::dec::key_index(pre, key) < 0) by {
        if crate::dec::key_index(pre, key) >= 0 {
            assert(pre[crate::dec::key_index(pre, key)].0 == key);
        }
    }
    let acc2 = pre.push(rem[0]);
    assert(crate::dec::map_insert(pre, key, v) == acc2);
    if rem.len() == 1 {
        assert(enc_map_items(rem.skip(1)) =~= Seq::<char>::empty());
        assert(after =~= seq!['}'] + rest);
        assert(after[0] == '}');
        lemma_no_ws(after);
        assert(after.skip(1) =~= rest);
        assert(acc2 =~= pre + rem);
    } else {
        let rem2 = rem.skip(1);
        let inner = enc_string(rem2[0].0) + (seq![':'] + (enc_setting(rem2[0].1) + (
        enc_map_items(rem2.skip(1)) + (seq!['}'] + rest))));
        assert(enc_map_items(rem2) == seq![','] + enc_string(rem2[0].0) + seq![':'] + enc_setting(
            rem2[0].1,
        ) + enc_map_items(rem2.skip(1)));
        assert(after =~= seq![','] + inner);
        assert(after[0] == ',');
        lemma_no_ws(after);
        assert(after.skip(1) =~= inner);
        assert(inner[0] == '"');
        lemma_no_ws(inner);
        assert(acc2 + rem2 =~= pre + rem);
        lemma_scan_map_entries(acc2, rem2, rest);
        assert(inner.len() < s.len());
    }
}

/// The canonical map text is the brace and the entry list.
#[verifier::rlimit(100)]
#[verifier::spinoff_prover]
proof fn lemma_map_text_shape(m: Seq<(Seq<char>, PluggableMonitorSettingV)>, rest: Seq<char>)
    requires
        m.len() >= 1,
    ensures
        enc_map(m) + rest == seq!['{'] + (enc_string(m[0].0) + (seq![':'] + (enc_setting(m[0].1)
            + (enc_map_items(m.skip(1)) + (seq!['}'] + rest))))),
{
    let ka = enc_string(m[0].0);
    let kb = seq![':'];
    let kc = enc_setting(m[0].1);
    let kd = enc_map_items(m.skip(1));
    let ke = seq!['}'];
    let inner = ka + (kb + (kc + (kd + (ke + rest))));
    let q1 = seq!['{'] + ka;
    let q2 = q1 + kb;
    let q3 = q2 + kc;
    let q4 = q3 + kd;
    let q5 = q4 + ke;
    assert(seq!['{'] + inner =~= q1 + (kb + (kc + (kd + (ke + rest)))));
    assert(q1 + (kb + (kc + (kd + (ke + rest)))) =~= q2 + (kc + (kd + (ke + rest))));
    assert(q2 + (kc + (kd + (ke + rest))) =~= q3 + (kd + (ke + rest)));
    assert(q3 + (kd + (ke + rest)) =~= q4 + (ke + rest));
    assert(q4 + (ke + rest) =~= q5 + rest);
    assert(enc_map(m) == q5);
}

/// A canonical settings map parses back, in front of any continuation.
#[verifier::rlimit(100)]
#[verifier::spinoff_prover]
pub proof fn lemma_parse_map_enc(m: Seq<(Seq<char>, PluggableMonitorSettingV)>, rest: Seq<char>)
    requires
        map_keys_distinct(m),
    ensures
        parse_map(enc_map(m) + rest) == Some((m, rest)),
{
    let s = enc_map(m) + rest;
    if m.len() == 0 {
        assert(s =~= seq!['{', '}'] + rest);
        assert(s[0] == '{');
        assert(s.skip(1) =~= seq!['}'] + rest);
        assert((seq!['}'] + rest)[0] == '}');
        lemma_no_ws(seq!['}'] + rest);
        assert((seq!['}'] + rest).skip(1) =~= rest);
        assert(parse_map(s) == Some((Seq::<(Seq<char>, PluggableMonitorSettingV)>::empty(), rest)));
        assert(Seq::<(Seq<char>, PluggableMonitorSettingV)>::empty() =~= m);
    } else {
        let inner = enc_string(m[0].0) + (seq![':'] + (enc_setting(m[0].1) + (enc_map_items(
            m.skip(1),
        ) + (seq!['}'] + rest))));
        lemma_map_text_shape(m, rest);
        assert(s == seq!['{'] + inner);
        assert(s[0] == '{');
        assert(s.skip(1) =~= inner);
        assert(inner[0] == '"');
        lemma_no_ws(inner);
        assert(Seq::<(Seq<char>, PluggableMonitorSettingV)>::empty() + m =~= m);
        lemma_scan_map_entries(Seq::empty(), m, rest);
    }
}

// ---------------------------------------------------------------------------
// the settings payload
// ---------------------------------------------------------------------------

/// One member of the settings payload, in the scan's frame.
proof fn lemma_scan_settings_frame(
    key: Seq<char>,
    vt: Seq<char>,
    a: SetAcc,
    a2: SetAcc,
    term: char,
    r: Seq<char>,
)
    requires
        vt.len() > 0,
        !is_ws_char(vt[0]),
        term == ',' || term == '}',
        scan_settings_member(key, vt + (seq![term] + r), a) == Some((a2, seq![term] + r)),
        term == ',' ==> r.len() > 0 && !is_ws_char(r[0]) && (seq![term] + r).len() < (enc_string(
            key,
        ) + seq![':'] + vt + seq![term] + r).len(),
    ensures
        term == ',' ==> scan_settings(enc_string(key) + seq![':'] + vt + seq![term] + r, a)
            == scan_settings(r, a2),
        term == '}' ==> scan_settings(enc_string(key) + seq![':'] + vt + seq![term] + r, a)
            == Some((a2, r)),
{
    reveal(scan_settings);
    let s = enc_string(key) + seq![':'] + vt + seq![term] + r;
    let tail = seq![':'] + vt + seq![term] + r;
    assert(s[0] == '"');
    assert(s.skip(1) =~= esc_string(key) + seq!['"'] + tail);
    lemma_parse_str_body(key, tail);
    assert(tail[0] == ':');
    lemma_no_ws(tail);
    assert(tail.skip(1) =~= vt + (seq![term] + r));
    lemma_no_ws(vt + (seq![term] + r));
    assert((vt + (seq![term] + r))[0] == vt[0]);
    let r4 = seq![term] + r;
    assert(r4[0] == term);
    lemma_no_ws(r4);
    assert(r4.skip(1) =~= r);
    if term == ',' {
        lemma_no_ws(r);
    }
}

/// The two settings payload keys are distinct by length.
proof fn lemma_settings_keys()
    ensures
        "pluggableMonitorSettings"@.len() == 24,
        "monitorUISettings"@.len() == 17,
{
    reveal_strlit("pluggableMonitorSettings");
    reveal_strlit("monitorUISettings");
}

/// The member dispatch facts for the settings payload keys.
#[verifier::rlimit(100)]
#[verifier::spinoff_prover]
proof fn lemma_settings_member_facts(v: MonitorSettingsV, a: SetAcc, term: char, r: Seq<char>)
    requires
        v.wf(),
    ensures
        !a.seen_pms ==> (match v.pluggable_monitor_settings {
            Some(p) => scan_settings_member(
                "pluggableMonitorSettings"@,
                enc_map(p) + (seq![term] + r),
                a,
            ) == Some((SetAcc { seen_pms: true, pms: Some(p), ..a }, seq![term] + r)),
            None => true,
        }),
        !a.seen_mus ==> (match v.monitor_ui_settings {
            Some(u) => scan_settings_member(
                "monitorUISettings"@,
                enc_model_state(u) + (seq![term] + r),
                a,
            ) == Some((SetAcc { seen_mus: true, mus: Some(u), ..a }, seq![term] + r)),
            None => true,
        }),
{
    reveal(scan_settings_member);
    lemma_settings_keys();
    reveal_strlit("null");
    if let Some(p) = v.pluggable_monitor_settings {
        let s = enc_map(p) + (seq![term] + r);
        assert(s[0] == enc_map(p)[0]);
        assert(enc_map(p)[0] == '{');
        lemma_not_null(s);
        lemma_parse_map_enc(p, seq![term] + r);
    }
    if let Some(u) = v.monitor_ui_settings {
        let s = enc_model_state(u) + (seq![term] + r);
        assert(s[0] == enc_model_state(u)[0]);
        assert(enc_model_state(u)[0] == '{');
        lemma_not_null(s);
        lemma_parse_model_enc(u, seq![term] + r);
    }
}

/// The canonical settings text with both halves present, as brace and
/// member list.
#[verifier::rlimit(100)]
#[verifier::spinoff_prover]
proof fn lemma_settings_text_shape_both(
    p: Seq<(Seq<char>, PluggableMonitorSettingV)>,
    u: MonitorModelStateV,
    rest: Seq<char>,
)
    ensures
        (seq!['{'] + enc_string("pluggableMonitorSettings"@) + seq![':'] + enc_map(p) + seq![',']
            + enc_string("monitorUISettings"@) + seq![':'] + enc_model_state(u) + seq!['}'])
            + rest == seq!['{'] + (enc_string("pluggableMonitorSettings"@) + seq![':'] + enc_map(
            p,
        ) + seq![','] + (enc_string("monitorUISettings"@) + seq![':'] + enc_model_state(u)
            + seq!['}'] + rest)),
{
    let ka = enc_string("pluggableMonitorSettings"@) + seq![':'] + enc_map(p) + seq![','];
    let kb = enc_string("monitorUISettings"@) + seq![':'] + enc_model_state(u) + seq!['}'];
    assert((seq!['{'] + ka + kb) + rest =~= seq!['{'] + (ka + (kb + rest)));
    assert(seq!['{'] + enc_string("pluggableMonitorSettings"@) + seq![':'] + enc_map(p)
        + seq![','] == seq!['{'] + ka);
    assert((seq!['{'] + ka) + kb + rest =~= (seq!['{'] + ka + kb) + rest);
    assert(ka + (kb + rest) =~= enc_string("pluggableMonitorSettings"@) + seq![':'] + enc_map(p)
        + seq![','] + (kb + rest));
}

/// The canonical settings payload parses back, in front of any
/// continuation.
#[verifier::rlimit(100)]
#[verifier::spinoff_prover]
pub proof fn lemma_parse_settings_enc(v: MonitorSettingsV, rest: Seq<char>)
    requires
        v.wf(),
    ensures
        parse_settings_obj(enc_settings(v) + rest) == Some((v, rest)),
{
    lemma_settings_keys();
    let a0 = crate::dec::set_acc_init();
    let s = enc_settings(v) + rest;
    match (v.pluggable_monitor_settings, v.monitor_ui_settings) {
        (None, None) => {
            assert(s =~= seq!['{', '}'] + rest);
            assert(s[0] == '{');
            assert(s.skip(1) =~= seq!['}'] + rest);
            assert((seq!['}'] + rest)[0] == '}');
            lemma_no_ws(seq!['}'] + rest);
            assert((seq!['}'] + rest).skip(1) =~= rest);
            assert(parse_settings_obj(s) == Some((crate::dec::set_finish(a0), rest)));
            assert(crate::dec::set_finish(a0) =~= v);
        },
        (Some(p), None) => {
            lemma_parse_settings_enc_pms(v, p, rest);
        },
        (None, Some(u)) => {
            lemma_parse_settings_enc_mus(v, u, rest);
        },
        (Some(p), Some(u)) => {
            lemma_parse_settings_enc_both(v, p, u, rest);
        },
    }
}

/// The settings payload with only the pluggable map present.
#[verifier::rlimit(100)]
#[verifier::spinoff_prover]
proof fn lemma_parse_settings_enc_pms(
    v: MonitorSettingsV,
    p: Seq<(Seq<char>, PluggableMonitorSettingV)>,
    rest: Seq<char>,
)
    requires
        v.wf(),
        v.pluggable_monitor_settings == Some(p),
        v.monitor_ui_settings is None,
    ensures
        parse_settings_obj(enc_settings(v) + rest) == Some((v, rest)),
{
    lemma_settings_keys();
    let a0 = crate::dec::set_acc_init();
    let s = enc_settings(v) + rest;
    let inner = enc_string("pluggableMonitorSettings"@) + seq![':'] + enc_map(p) + seq!['}']
        + rest;
    assert(s =~= seq!['{'] + inner);
    assert(s[0] == '{');
    assert(s.skip(1) =~= inner);
    assert(inner[0] == '"');
    lemma_no_ws(inner);
    let a1 = SetAcc { seen_pms: true, pms: Some(p), ..a0 };
    lemma_settings_member_facts(v, a0, '}', rest);
    assert(enc_map(p)[0] == '{');
    lemma_scan_settings_frame("pluggableMonitorSettings"@, enc_map(p), a0, a1, '}', rest);
    assert(scan_settings(inner, a0) == Some((a1, rest)));
    assert(parse_settings_obj(s) == Some((crate::dec::set_finish(a1), rest)));
    assert(crate::dec::set_finish(a1) =~= v);
}

/// The settings payload with only the UI state present.
#[verifier::rlimit(100)]
#[verifier::spinoff_prover]
proof fn lemma_parse_settings_enc_mus(v: MonitorSettingsV, u: MonitorModelStateV, rest: Seq<char>)
    requires
        v.wf(),
        v.pluggable_monitor_settings is None,
        v.monitor_ui_settings == Some(u),
    ensures
        parse_settings_obj(enc_settings(v) + rest) == Some((v, rest)),
{
    lemma_settings_keys();
    let a0 = crate::dec::set_acc_init();
    let s = enc_settings(v) + rest;
    let inner = enc_string("monitorUISettings"@) + seq![':'] + enc_model_state(u) + seq!['}']
        + rest;
    assert(s =~= seq!['{'] + inner);
    assert(s[0] == '{');
    assert(s.skip(1) =~= inner);
    assert(inner[0] == '"');
    lemma_no_ws(inner);
    let a1 = SetAcc { seen_mus: true, mus: Some(u), ..a0 };
    lemma_settings_member_facts(v, a0, '}', rest);
    assert(enc_model_state(u)[0] == '{');
    lemma_scan_settings_frame("monitorUISettings"@, enc_model_state(u), a0, a1, '}', rest);
    assert(scan_settings(inner, a0) == Some((a1, rest)));
    assert(parse_settings_obj(s) == Some((crate::dec::set_finish(a1), rest)));
    assert(crate::dec::set_finish(a1) =~= v);
}

/// The settings payload with both halves present.
#[verifier::rlimit(100)]
#[verifier::spinoff_prover]
proof fn lemma_parse_settings_enc_both(
    v: MonitorSettingsV,
    p: Seq<(Seq<char>, PluggableMonitorSettingV)>,
    u: MonitorModelStateV,
    rest: Seq<char>,
)
    requires
        v.wf(),
        v.pluggable_monitor_settings == Some(p),
        v.monitor_ui_settings == Some(u),
    ensures
        parse_settings_obj(enc_settings(v) + rest) == Some((v, rest)),
{
    lemma_settings_keys();
    let a0 = crate::dec::set_acc_init();
    let s = enc_settings(v) + rest;
    let inner2 = enc_string("monitorUISettings"@) + seq![':'] + enc_model_state(u) + seq!['}']
        + rest;
    let inner1 = enc_string("pluggableMonitorSettings"@) + seq![':'] + enc_map(p) + seq![',']
        + inner2;
    lemma_settings_text_shape_both(p, u, rest);
    assert(s == seq!['{'] + inner1);
    assert(s[0] == '{');
    assert(s.skip(1) =~= inner1);
    assert(inner1[0] == '"');
    lemma_no_ws(inner1);
    let a1 = SetAcc { seen_pms: true, pms: Some(p), ..a0 };
    let a2 = SetAcc { seen_mus: true, mus: Some(u), ..a1 };
    lemma_settings_member_facts(v, a0, ',', inner2);
    assert(enc_map(p)[0] == '{');
    assert(inner2[0] == '"');
    lemma_scan_settings_frame("pluggableMonitorSettings"@, enc_map(p), a0, a1, ',', inner2);
    lemma_settings_member_facts(v, a1, '}', rest);
    assert(enc_model_state(u)[0] == '{');
    lemma_scan_settings_frame("monitorUISettings"@, enc_model_state(u), a1, a2, '}', rest);
    assert(scan_settings(inner1, a0) == Some((a2, rest)));
    assert(parse_settings_obj(s) == Some((crate::dec::set_finish(a2), rest)));
    assert(crate::dec::set_finish(a2) =~= v);
}

// ---------------------------------------------------------------------------
// the envelope, and the laws
// ---------------------------------------------------------------------------

/// One member of an envelope, in the scan's frame.
#[verifier::rlimit(100)]
#[verifier::spinoff_prover]
proof fn lemma_scan_env_frame(
    key: Seq<char>,
    vt: Seq<char>,
    a: EnvAcc,
    a2: EnvAcc,
    term: char,
    r: Seq<char>,
)
    requires
        vt.len() > 0,
        !is_ws_char(vt[0]),
        term == ',' || term == '}',
        scan_env_member(key, vt + (seq![term] + r), a) == Some((a2, seq![term] + r)),
        term == ',' ==> r.len() > 0 && !is_ws_char(r[0]) && (seq![term] + r).len() < (enc_string(
            key,
        ) + seq![':'] + vt + seq![term] + r).len(),
    ensures
        term == ',' ==> scan_env(enc_string(key) + seq![':'] + vt + seq![term] + r, a)
            == scan_env(r, a2),
        term == '}' ==> scan_env(enc_string(key) + seq![':'] + vt + seq![term] + r, a) == Some(
            (a2, r),
        ),
{
    reveal(scan_env);
    let s = enc_string(key) + seq![':'] + vt + seq![term] + r;
    let tail = seq![':'] + vt + seq![term] + r;
    assert(s[0] == '"');
    assert(s.skip(1) =~= esc_string(key) + seq!['"'] + tail);
    lemma_parse_str_body(key, tail);
    assert(tail[0] == ':');
    lemma_no_ws(tail);
    assert(tail.skip(1) =~= vt + (seq![term] + r));
    lemma_no_ws(vt + (seq![term] + r));
    assert((vt + (seq![term] + r))[0] == vt[0]);
    let r4 = seq![term] + r;
    assert(r4[0] == term);
    lemma_no_ws(r4);
    assert(r4.skip(1) =~= r);
    if term == ',' {
        lemma_no_ws(r);
    }
}

/// The envelope text of a settings notification, as brace and member list.
#[verifier::rlimit(100)]
#[verifier::spinoff_prover]
proof fn lemma_middleware_text_shape(v: MonitorSettingsV)
    ensures
        enc_middleware(v) == seq!['{'] + (enc_string("command"@) + seq![':'] + enc_string(
            "ON_SETTINGS_DID_CHANGE"@,
        ) + seq![','] + (enc_string("data"@) + seq![':'] + enc_settings(v) + seq!['}']
            + Seq::<char>::empty())),
{
    let ka = enc_string("command"@) + seq![':'] + enc_string("ON_SETTINGS_DID_CHANGE"@)
        + seq![','];
    let kb = enc_string("data"@) + seq![':'] + enc_settings(v) + seq!['}'];
    assert(enc_middleware(v) =~= seq!['{'] + ka + kb);
    assert(seq!['{'] + ka + kb =~= seq!['{'] + (ka + (kb + Seq::<char>::empty())));
    assert(ka + (kb + Seq::<char>::empty()) =~= enc_string("command"@) + seq![':'] + enc_string(
        "ON_SETTINGS_DID_CHANGE"@,
    ) + seq![','] + (enc_string("data"@) + seq![':'] + enc_settings(v) + seq!['}']
        + Seq::<char>::empty()));
}

/// The two envelope keys are distinct by length.
proof fn lemma_env_keys()
    ensures
        "command"@.len() == 7,
        "data"@.len() == 4,
{
    reveal_strlit("command");
    reveal_strlit("data");
}

/// Decoding a canonical settings notification yields the settings back:
/// the round trip for the enveloped wire form, for every well-formed
/// settings value.
#[verifier::rlimit(100)]
#[verifier::spinoff_prover]
pub proof fn lemma_middleware_round_trip(v: MonitorSettingsV)
    requires
        v.wf(),
    ensures
        decode_middleware_spec(enc_middleware(v)) == Ok::<
            MonitorSettingsV,
            crate::error::DecodeErrorV,
        >(v),
{
    reveal(scan_env_member);
    lemma_env_keys();
    let e: Seq<char> = Seq::empty();
    let inner2 = enc_string("data"@) + seq![':'] + enc_settings(v) + seq!['}'] + e;
    let inner1 = enc_string("command"@) + seq![':'] + enc_string("ON_SETTINGS_DID_CHANGE"@)
        + seq![','] + inner2;
    lemma_middleware_text_shape(v);
    let s = enc_middleware(v);
    assert(s == seq!['{'] + inner1);
    assert(s[0] == '{');
    lemma_no_ws(s);
    assert(s.skip(1) =~= inner1);
    assert(inner1[0] == '"');
    lemma_no_ws(inner1);
    let a0 = crate::dec::env_acc_init();
    let a1 = EnvAcc { seen_cmd: true, cmd: "ON_SETTINGS_DID_CHANGE"@, ..a0 };
    let a2 = EnvAcc { data: DataSeen::DSettings(v), ..a1 };
    // the command member
    lemma_parse_string("ON_SETTINGS_DID_CHANGE"@, seq![','] + inner2);
    assert(scan_env_member(
        "command"@,
        enc_string("ON_SETTINGS_DID_CHANGE"@) + (seq![','] + inner2),
        a0,
    ) == Some((a1, seq![','] + inner2)));
    assert(enc_string("ON_SETTINGS_DID_CHANGE"@)[0] == '"');
    assert(inner2[0] == '"');
    lemma_scan_env_frame(
        "command"@,
        enc_string("ON_SETTINGS_DID_CHANGE"@),
        a0,
        a1,
        ',',
        inner2,
    );
    // the data member
    lemma_parse_settings_enc(v, seq!['}'] + e);
    assert((enc_settings(v) + (seq!['}'] + e))[0] == enc_settings(v)[0]);
    assert(enc_settings(v)[0] == '{');
    assert(scan_env_member("data"@, enc_settings(v) + (seq!['}'] + e), a1) == Some(
        (a2, seq!['}'] + e),
    ));
    lemma_scan_env_frame("data"@, enc_settings(v), a1, a2, '}', e);
    assert(scan_env(inner1, a0) == Some((a2, e)));
    assert(skip_ws(e).len() == 0);
    assert(crate::dec::parse_envelope(s) == Some(a2));
    reveal_strlit("ON_SETTINGS_DID_CHANGE");
}

/// Parsing a canonical envelope: any tag string, and any data value whose
/// member dispatch fact is given.
#[verifier::rlimit(100)]
#[verifier::spinoff_prover]
proof fn lemma_parse_envelope_enc(tag: Seq<char>, vt: Seq<char>, dval: DataSeen)
    requires
        vt.len() > 0,
        !is_ws_char(vt[0]),
        scan_env_member(
            "data"@,
            vt + (seq!['}'] + Seq::<char>::empty()),
            EnvAcc { seen_cmd: true, cmd: tag, data: DataSeen::DNone },
        ) == Some(
            (
                EnvAcc { seen_cmd: true, cmd: tag, data: dval },
                seq!['}'] + Seq::<char>::empty(),
            ),
        ),
    ensures
        crate::dec::parse_envelope(
            (seq!['{'] + enc_string("command"@) + seq![':'] + enc_string(tag) + seq![',']
                + enc_string("data"@) + seq![':'] + vt + seq!['}']),
        ) == Some(EnvAcc { seen_cmd: true, cmd: tag, data: dval }),
{
    reveal(scan_env_member);
    lemma_env_keys();
    let e: Seq<char> = Seq::empty();
    let inner2 = enc_string("data"@) + seq![':'] + vt + seq!['}'] + e;
    let inner1 = enc_string("command"@) + seq![':'] + enc_string(tag) + seq![','] + inner2;
    let s = seq!['{'] + enc_string("command"@) + seq![':'] + enc_string(tag) + seq![',']
        + enc_string("data"@) + seq![':'] + vt + seq!['}'];
    assert(s == seq!['{'] + inner1) by {
        let ka = enc_string("command"@) + seq![':'] + enc_string(tag) + seq![','];
        let kb = enc_string("data"@) + seq![':'] + vt + seq!['}'];
        assert(s =~= seq!['{'] + ka + kb);
        assert(seq!['{'] + ka + kb =~= seq!['{'] + (ka + (kb + e)));
        assert(ka + (kb + e) =~= inner1);
    }
    assert(s[0] == '{');
    lemma_no_ws(s);
    assert(s.skip(1) =~= inner1);
    assert(inner1[0] == '"');
    lemma_no_ws(inner1);
    let a0 = crate::dec::env_acc_init();
    let a1 = EnvAcc { seen_cmd: true, cmd: tag, ..a0 };
    let a2 = EnvAcc { seen_cmd: true, cmd: tag, data: dval };
    lemma_parse_string(tag, seq![','] + inner2);
    assert(scan_env_member("command"@, enc_string(tag) + (seq![','] + inner2), a0) == Some(
        (a1, seq![','] + inner2),
    ));
    assert(enc_string(tag)[0] == '"');
    assert(inner2[0] == '"');
    lemma_scan_env_frame("command"@, enc_string(tag), a0, a1, ',', inner2);
    assert(a1 == EnvAcc { seen_cmd: true, cmd: tag, data: DataSeen::DNone });
    lemma_scan_env_frame("data"@, vt, a1, a2, '}', e);
    assert(scan_env(inner1, a0) == Some((a2, e)));
    assert(skip_ws(e).len() == 0);
}

/// Decoding a canonical `SEND_MESSAGE` frame yields the message back, for
/// every payload string.
#[verifier::rlimit(100)]
#[verifier::spinoff_prover]
pub proof fn lemma_inbound_send_message_round_trip(m: Seq<char>)
    ensures
        crate::dec::decode_inbound_spec(
            crate::enc::enc_inbound(ClientCommandV::SendMessage(m)),
        ) == Ok::<ClientCommandV, crate::error::DecodeErrorV>(ClientCommandV::SendMessage(m)),
{
    reveal(scan_env_member);
    lemma_env_keys();
    let e: Seq<char> = Seq::empty();
    let vt = enc_string(m);
    let a1 = EnvAcc { seen_cmd: true, cmd: "SEND_MESSAGE"@, data: DataSeen::DNone };
    assert(vt[0] == '"');
    assert((vt + (seq!['}'] + e))[0] == '"');
    assert((vt + (seq!['}'] + e)).skip(1) =~= esc_string(m) + seq!['"'] + (seq!['}'] + e));
    lemma_parse_str_body(m, seq!['}'] + e);
    assert(scan_env_member("data"@, vt + (seq!['}'] + e), a1) == Some(
        (EnvAcc { data: DataSeen::DStr(m), ..a1 }, seq!['}'] + e),
    ));
    lemma_parse_envelope_enc("SEND_MESSAGE"@, vt, DataSeen::DStr(m));
    assert(crate::enc::enc_inbound(ClientCommandV::SendMessage(m)) == seq!['{'] + enc_string(
        "command"@,
    ) + seq![':'] + enc_string("SEND_MESSAGE"@) + seq![','] + enc_string("data"@) + seq![':']
        + vt + seq!['}']);
    reveal_strlit("SEND_MESSAGE");
}

/// Decoding a canonical `CHANGE_SETTINGS` frame yields the settings back,
/// for every well-formed settings value.
#[verifier::rlimit(100)]
#[verifier::spinoff_prover]
pub proof fn lemma_inbound_change_settings_round_trip(v: MonitorSettingsV)
    requires
        v.wf(),
    ensures
        crate::dec::decode_inbound_spec(
            crate::enc::enc_inbound(ClientCommandV::ChangeSettings(v)),
        ) == Ok::<ClientCommandV, crate::error::DecodeErrorV>(ClientCommandV::ChangeSettings(v)),
{
    reveal(scan_env_member);
    lemma_env_keys();
    let e: Seq<char> = Seq::empty();
    let vt = enc_settings(v);
    let a1 = EnvAcc { seen_cmd: true, cmd: "CHANGE_SETTINGS"@, data: DataSeen::DNone };
    assert(vt[0] == '{');
    assert((vt + (seq!['}'] + e))[0] == '{');
    lemma_parse_settings_enc(v, seq!['}'] + e);
    assert(scan_env_member("data"@, vt + (seq!['}'] + e), a1) == Some(
        (EnvAcc { data: DataSeen::DSettings(v), ..a1 }, seq!['}'] + e),
    ));
    lemma_parse_envelope_enc("CHANGE_SETTINGS"@, vt, DataSeen::DSettings(v));
    assert(crate::enc::enc_inbound(ClientCommandV::ChangeSettings(v)) == seq!['{'] + enc_string(
        "command"@,
    ) + seq![':'] + enc_string("CHANGE_SETTINGS"@) + seq![','] + enc_string("data"@) + seq![':']
        + vt + seq!['}']);
    reveal_strlit("CHANGE_SETTINGS");
    reveal_strlit("SEND_MESSAGE");
    assert("CHANGE_SETTINGS"@.len() == 15 && "SEND_MESSAGE"@.len() == 12);
}

/// Decoding a canonical settings payload yields the settings back: the
/// round trip for the bare settings object, for every well-formed value.
pub proof fn lemma_settings_round_trip(v: MonitorSettingsV)
    requires
        v.wf(),
    ensures
        decode_settings_spec(enc_settings(v)) == Ok::<
            MonitorSettingsV,
            crate::error::DecodeErrorV,
        >(v),
{
    let e: Seq<char> = Seq::empty();
    lemma_parse_settings_enc(v, e);
    assert(enc_settings(v) + e =~= enc_settings(v));
    assert(enc_settings(v)[0] == '{');
    lemma_no_ws(enc_settings(v));
    assert(skip_ws(e).len() == 0);
}

/// Each line ending decodes back from its encoded marker, and the marker
/// is one of the four exact strings.
pub proof fn lemma_eol_round_trip(e: EndOfLine)
    ensures
        EndOfLine::spec_decode(e.spec_encode()) == Some(e),
        e.spec_encode() == ""@ || e.spec_encode() == "\n"@ || e.spec_encode() == "\r"@
            || e.spec_encode() == "\r\n"@,
{
    reveal_strlit("");
    reveal_strlit("\n");
    reveal_strlit("\r");
    reveal_strlit("\r\n");
    assert(""@.len() == 0 && "\n"@.len() == 1 && "\r"@.len() == 1 && "\r\n"@.len() == 2);
    assert("\n"@[0] == '\n' && "\r"@[0] == '\r');
    match e {
        EndOfLine::NoLineEnding => {
            assert(e.spec_encode() == ""@);
        },
        EndOfLine::NewLine => {
            assert(e.spec_encode() == "\n"@);
            assert("\n"@ != "\r"@);
        },
        EndOfLine::CarriageReturn => {
            assert(e.spec_encode() == "\r"@);
            assert("\r"@ != "\n"@);
        },
        EndOfLine::CarriageReturnNewLine => {
            assert(e.spec_encode() == "\r\n"@);
        },
    }
}

} // verus!
