use arduino_plotter::error::{DecodeError, InboundError};
use arduino_plotter::protocol::{ClientCommand, EndOfLine, MonitorModelState, MonitorSettings};
use arduino_plotter::session::{
    inbound_step, FrameEvent, InboundState, PollEvent, PollOutcome,
};

#[test]
fn text_frame_yields_decoded_command() {
    let mut st = InboundState::new();
    let out = inbound_step(
        &mut st,
        PollEvent::Frame(FrameEvent::Text(String::from(
            "{\"command\":\"CHANGE_SETTINGS\",\"data\":{\"monitorUISettings\":{\"lineEnding\":\"\\n\"}}}",
        ))),
    );
    let expected = ClientCommand::ChangeSettings(MonitorSettings {
        pluggable_monitor_settings: None,
        monitor_ui_settings: Some(MonitorModelState {
            line_ending: Some(EndOfLine::NewLine),
            ..MonitorModelState::default()
        }),
    });
    assert_eq!(out, PollOutcome::Item(Ok(expected)));
    assert!(!st.closed);
}

#[test]
fn bad_text_frame_yields_error_item_and_sequence_goes_on() {
    let mut st = InboundState::new();
    let out = inbound_step(
        &mut st,
        PollEvent::Frame(FrameEvent::Text(String::from("not json"))),
    );
    assert_eq!(
        out,
        PollOutcome::Item(Err(InboundError::Decode(DecodeError::Json)))
    );
    assert!(!st.closed);
    let out2 = inbound_step(
        &mut st,
        PollEvent::Frame(FrameEvent::Text(String::from(
            "{\"command\":\"SEND_MESSAGE\",\"data\":\"ok\"}",
        ))),
    );
    assert_eq!(
        out2,
        PollOutcome::Item(Ok(ClientCommand::SendMessage(String::from("ok"))))
    );
}

#[test]
fn non_text_frame_yields_non_text_error() {
    let mut st = InboundState::new();
    let out = inbound_step(&mut st, PollEvent::Frame(FrameEvent::NonText));
    assert_eq!(out, PollOutcome::Item(Err(InboundError::NonTextMessage)));
    assert!(!st.closed);
}

#[test]
fn close_frame_ends_the_sequence_for_good() {
    let mut st = InboundState::new();
    let out = inbound_step(&mut st, PollEvent::Frame(FrameEvent::Close));
    assert_eq!(out, PollOutcome::End);
    assert!(st.closed);
    // No subsequent poll yields an item, whatever arrives.
    let after_text = inbound_step(
        &mut st,
        PollEvent::Frame(FrameEvent::Text(String::from(
            "{\"command\":\"SEND_MESSAGE\",\"data\":\"x\"}",
        ))),
    );
    assert_eq!(after_text, PollOutcome::End);
    let after_binary = inbound_step(&mut st, PollEvent::Frame(FrameEvent::NonText));
    assert_eq!(after_binary, PollOutcome::End);
    let after_gone = inbound_step(&mut st, PollEvent::Gone);
    assert_eq!(after_gone, PollOutcome::End);
    assert!(st.closed);
}

#[test]
fn stream_end_ends_the_sequence() {
    let mut st = InboundState::new();
    let out = inbound_step(&mut st, PollEvent::Gone);
    assert_eq!(out, PollOutcome::End);
    assert!(st.closed);
}
