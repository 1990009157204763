//! The reader of one connection, as a rule from state and event to next
//! state and action. The caller reads the bytes and queues the messages.

use vstd::prelude::*;
use vstd::utf8::{decode_utf8, valid_utf8};
use crate::framing::{decode_header, header_value};
use crate::text::utf8_text;

verus! {

/// Why a reader stopped. After any of these the connection counts as dead.
#[derive(Clone, Copy, Debug, PartialEq, Eq, Structural)]
pub enum CloseReason {
    /// Reading from the stream failed or the peer hung up.
    Disconnected,
    /// A body was not UTF-8.
    NotUtf8,
    /// A body was no message document.
    NotAMessage,
    /// The inbound queue has no reader any more.
    QueueClosed,
    /// An event came that the reader was not waiting for.
    OutOfStep,
}

/// Where the reader of one connection stands.
#[derive(Clone, Copy, Debug, PartialEq, Eq, Structural)]
pub enum ReaderState {
    /// Waiting for the four bytes of a length.
    AwaitHeader,
    /// Waiting for a body of the given length.
    AwaitBody { length: u32 },
    /// Waiting to hear whether the text was decoded and queued.
    AwaitDelivery,
    /// Stopped.
    Closed { reason: CloseReason },
}

/// What happened on the stream or with the last text handed out.
#[derive(Debug)]
pub enum ReaderEvent {
    /// The bytes asked for were read in full.
    Bytes(Vec<u8>),
    /// Reading failed.
    ReadFailed,
    /// The text was a message and is in the inbound queue.
    Delivered,
    /// The text was no message document.
    Undecodable,
    /// The inbound queue refused the message.
    QueueClosed,
}

/// What the reader is to do next.
#[derive(Debug)]
pub enum ReaderAction {
    /// Read exactly this many bytes and report them.
    Read { count: u32 },
    /// Decode this text as a message and queue it; report the outcome.
    Deliver { text: String },
    /// Stop reading; the connection is dead.
    Stop,
}

/// A [`ReaderEvent`] as a mathematical value.
pub enum ReaderEventView {
    Bytes(Seq<u8>),
    ReadFailed,
    Delivered,
    Undecodable,
    QueueClosed,
}

/// A [`ReaderAction`] as a mathematical value.
pub enum ReaderActionView {
    Read { count: u32 },
    Deliver { text: Seq<char> },
    Stop,
}

impl View for ReaderEvent {
    type V = ReaderEventView;

    open spec fn view(&self) -> ReaderEventView {
        match *self {
            ReaderEvent::Bytes(b) => ReaderEventView::Bytes(b@),
            ReaderEvent::ReadFailed => ReaderEventView::ReadFailed,
            ReaderEvent::Delivered => ReaderEventView::Delivered,
            ReaderEvent::Undecodable => ReaderEventView::Undecodable,
            ReaderEvent::QueueClosed => ReaderEventView::QueueClosed,
        }
    }
}

impl View for ReaderAction {
    type V = ReaderActionView;

    open spec fn view(&self) -> ReaderActionView {
        match *self {
            ReaderAction::Read { count } => ReaderActionView::Read { count },
            ReaderAction::Deliver { text } => ReaderActionView::Deliver { text: text@ },
            ReaderAction::Stop => ReaderActionView::Stop,
        }
    }
}

/// The reader stops for `reason`.
pub open spec fn closes(reason: CloseReason) -> (ReaderState, ReaderActionView) {
    (ReaderState::Closed { reason }, ReaderActionView::Stop)
}

/// The rule of the reader loop: a length, then a body of that length, then
/// its delivery, and again; any failure on the way stops the reader, and a
/// stopped reader stays stopped.
pub open spec fn reader_rule(state: ReaderState, event: ReaderEventView) -> (
    ReaderState,
    ReaderActionView,
) {
    match state {
        ReaderState::Closed { reason } => closes(reason),
        ReaderState::AwaitHeader => match event {
            ReaderEventView::Bytes(b) => if b.len() == 4 {
                (
                    ReaderState::AwaitBody { length: header_value(b) as u32 },
                    ReaderActionView::Read { count: header_value(b) as u32 },
                )
            } else {
                closes(CloseReason::OutOfStep)
            },
            ReaderEventView::ReadFailed => closes(CloseReason::Disconnected),
            _ => closes(CloseReason::OutOfStep),
        },
        ReaderState::AwaitBody { length } => match event {
            ReaderEventView::Bytes(b) => if b.len() != length {
                closes(CloseReason::OutOfStep)
            } else if valid_utf8(b) {
                (ReaderState::AwaitDelivery, ReaderActionView::Deliver { text: decode_utf8(b) })
            } else {
                closes(CloseReason::NotUtf8)
            },
            ReaderEventView::ReadFailed => closes(CloseReason::Disconnected),
            _ => closes(CloseReason::OutOfStep),
        },
        ReaderState::AwaitDelivery => match event {
            ReaderEventView::Delivered => (
                ReaderState::AwaitHeader,
                ReaderActionView::Read { count: 4 },
            ),
            ReaderEventView::Undecodable => closes(CloseReason::NotAMessage),
            ReaderEventView::QueueClosed => closes(CloseReason::QueueClosed),
            _ => closes(CloseReason::OutOfStep),
        },
    }
}

/// How a reader starts: waiting for a header, with four bytes to read.
pub fn reader_start() -> (r: (ReaderState, ReaderAction))
    ensures
        r.0 == ReaderState::AwaitHeader,
        r.1@ == (ReaderActionView::Read { count: 4 }),
{
    (ReaderState::AwaitHeader, ReaderAction::Read { count: 4 })
}

/// One step of the reader loop; see [`reader_rule`].
pub fn reader_step(state: ReaderState, event: ReaderEvent) -> (r: (ReaderState, ReaderAction))
    ensures
        (r.0, r.1@) == reader_rule(state, event@),
{
    match state {
        ReaderState::Closed { reason } => (ReaderState::Closed { reason }, ReaderAction::Stop),
        ReaderState::AwaitHeader => match event {
            ReaderEvent::Bytes(b) => {
                if b.len() == 4 {
                    let length = decode_header(&b);
                    (ReaderState::AwaitBody { length }, ReaderAction::Read { count: length })
                } else {
                    reader_stop(CloseReason::OutOfStep)
                }
            },
            ReaderEvent::ReadFailed => reader_stop(CloseReason::Disconnected),
            _ => reader_stop(CloseReason::OutOfStep),
        },
        ReaderState::AwaitBody { length } => match event {
            ReaderEvent::Bytes(b) => {
                if b.len() != length as usize {
                    reader_stop(CloseReason::OutOfStep)
                } else {
                    match utf8_text(b) {
                        Ok(text) => (ReaderState::AwaitDelivery, ReaderAction::Deliver { text }),
                        Err(_) => reader_stop(CloseReason::NotUtf8),
                    }
                }
            },
            ReaderEvent::ReadFailed => reader_stop(CloseReason::Disconnected),
            _ => reader_stop(CloseReason::OutOfStep),
        },
        ReaderState::AwaitDelivery => match event {
            ReaderEvent::Delivered => (ReaderState::AwaitHeader, ReaderAction::Read { count: 4 }),
            ReaderEvent::Undecodable => reader_stop(CloseReason::NotAMessage),
            ReaderEvent::QueueClosed => reader_stop(CloseReason::QueueClosed),
            _ => reader_stop(CloseReason::OutOfStep),
        },
    }
}

fn reader_stop(reason: CloseReason) -> (r: (ReaderState, ReaderAction))
    ensures
        (r.0, r.1@) == closes(reason),
{
    (ReaderState::Closed { reason }, ReaderAction::Stop)
}

} // verus!
