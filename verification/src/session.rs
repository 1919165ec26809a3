//! The pure decision core of the stream adapters.
//!
//! The inbound adapter turns classified transport frames into a lazy
//! sequence of decoded client commands.  All I/O — awaiting frames, locking
//! the stream half — lives outside the verified library; what is verified
//! here is the decision taken for each event: which frames yield items,
//! which errors are local to one item, and that a close frame ends the
//! sequence for good.

use vstd::prelude::*;

use crate::dec::decode_inbound_spec;
use crate::error::{DecodeErrorV, InboundError};
use crate::protocol::ClientCommand;

verus! {

/// One frame from the transport, classified.
#[derive(Debug, Clone, PartialEq)]
pub enum FrameEvent {
    /// A text frame with its payload.
    Text(String),
    /// A binary, ping or pong frame: anything that is not text and not a
    /// close.
    NonText,
    /// A close frame.
    Close,
}

/// One poll of the underlying read half.
#[derive(Debug, Clone, PartialEq)]
pub enum PollEvent {
    /// A frame arrived.
    Frame(FrameEvent),
    /// The underlying stream is exhausted.
    Gone,
}

/// What one poll of the inbound adapter yields.
#[derive(Debug, PartialEq)]
pub enum PollOutcome {
    /// One item of the sequence: a decoded command, or an error local to
    /// this one frame.
    Item(Result<ClientCommand, InboundError>),
    /// The sequence has ended; no further items will be yielded.
    End,
}

/// Whether this event ends the sequence: a close frame or the end of the
/// underlying stream.
pub open spec fn closes(ev: PollEvent) -> bool {
    match ev {
        PollEvent::Gone => true,
        PollEvent::Frame(FrameEvent::Close) => true,
        _ => false,
    }
}

/// The state after handling one event.
pub open spec fn next_closed(closed: bool, ev: PollEvent) -> bool {
    closed || closes(ev)
}

/// The state after handling a whole sequence of events.
pub open spec fn closed_after(closed: bool, evs: Seq<PollEvent>) -> bool
    decreases evs.len(),
{
    if evs.len() == 0 {
        closed
    } else {
        closed_after(next_closed(closed, evs[0]), evs.skip(1))
    }
}

/// The decision state of the inbound adapter: whether the sequence has
/// ended.
#[derive(Debug, Clone, PartialEq)]
pub struct InboundState {
    pub closed: bool,
}

impl InboundState {
    /// A fresh adapter state: the sequence has not ended.
    pub fn new() -> (s: InboundState)
        ensures
            !s.closed,
    {
        InboundState { closed: false }
    }
}

/// Handle one poll of the read half.
///
/// A close frame or the end of the stream ends the sequence gracefully; a
/// non-text frame yields an error item and the sequence goes on; a text
/// frame yields exactly what the decoding model says for its payload.  Once
/// the state is closed, every poll yields `End` and the state stays closed.
pub fn inbound_step(st: &mut InboundState, ev: PollEvent) -> (out: PollOutcome)
    ensures
        final(st).closed == next_closed(old(st).closed, ev),
        old(st).closed ==> out == PollOutcome::End,
        !old(st).closed ==> match ev {
            PollEvent::Gone => out == PollOutcome::End,
            PollEvent::Frame(FrameEvent::Close) => out == PollOutcome::End,
            PollEvent::Frame(FrameEvent::NonText) => out == (PollOutcome::Item(
                Err(InboundError::NonTextMessage),
            )),
            PollEvent::Frame(FrameEvent::Text(t)) => match out {
                PollOutcome::Item(item) => match item {
                    Ok(c) => decode_inbound_spec(t@) == Ok::<_, DecodeErrorV>(c@),
                    Err(e) => match e {
                        InboundError::Decode(d) => decode_inbound_spec(t@) == Err::<
                            crate::protocol::ClientCommandV,
                            _,
                        >(d@),
                        InboundError::NonTextMessage => false,
                    },
                },
                PollOutcome::End => false,
            },
        },
{
    if st.closed {
        return PollOutcome::End;
    }
    match ev {
        PollEvent::Gone => {
            st.closed = true;
            PollOutcome::End
        },
        PollEvent::Frame(FrameEvent::Close) => {
            st.closed = true;
            PollOutcome::End
        },
        PollEvent::Frame(FrameEvent::NonText) => PollOutcome::Item(
            Err(InboundError::NonTextMessage),
        ),
        PollEvent::Frame(FrameEvent::Text(t)) => {
            match crate::dec::decode_inbound(t.as_str()) {
                Ok(c) => PollOutcome::Item(Ok(c)),
                Err(e) => PollOutcome::Item(Err(InboundError::Decode(e))),
            }
        },
    }
}

/// Once the sequence has ended it stays ended: from a closed state, no
/// sequence of further events ever reopens it, so by the contract of
/// [`inbound_step`] every later poll yields `End`.
pub proof fn lemma_close_absorbing(closed: bool, evs: Seq<PollEvent>)
    requires
        closed,
    ensures
        closed_after(closed, evs),
    decreases evs.len(),
{
    if evs.len() > 0 {
        lemma_close_absorbing(next_closed(closed, evs[0]), evs.skip(1));
    }
}

/// A close event ends the sequence whatever came before: after it, the
/// state is closed no matter the remaining events.
pub proof fn lemma_close_frame_ends(closed: bool, ev: PollEvent, rest: Seq<PollEvent>)
    requires
        closes(ev),
    ensures
        closed_after(next_closed(closed, ev), rest),
{
    lemma_close_absorbing(next_closed(closed, ev), rest);
}

} // verus!
