//! The event type and its byte codec.
//!
//! An [`Event`] is what applications exchange over a connection. On the wire
//! an event is a single tag byte, followed by the message bytes for
//! [`Event::Message`]. Decoding rejects an empty payload, an unknown tag, and
//! trailing bytes after a plain control tag.

use vstd::prelude::*;

verus! {

/// A typed application event carried over a connection.
#[derive(PartialEq, Eq, Clone, Debug)]
pub enum Event {
    /// A connection request from this side.
    Connect,
    /// An acknowledgement that the connection is established.
    Connected,
    /// A disconnection request from this side.
    Disconnect,
    /// An acknowledgement that the connection is closed.
    Disconnected,
    /// An application payload.
    Message(Vec<u8>),
}

/// The mathematical value of an [`Event`].
#[verifier::ext_equal]
pub enum EventView {
    Connect,
    Connected,
    Disconnect,
    Disconnected,
    Message(Seq<u8>),
}

impl View for Event {
    type V = EventView;

    open spec fn view(&self) -> EventView {
        match self {
            Event::Connect => EventView::Connect,
            Event::Connected => EventView::Connected,
            Event::Disconnect => EventView::Disconnect,
            Event::Disconnected => EventView::Disconnected,
            Event::Message(data) => EventView::Message(data@),
        }
    }
}

/// The views of a sequence of events.
pub open spec fn event_views(s: Seq<Event>) -> Seq<EventView> {
    s.map_values(|e: Event| e@)
}

/// Why a payload failed to decode.
#[derive(PartialEq, Eq, Structural, Clone, Copy, Debug)]
pub enum CodecError {
    /// The payload held no bytes at all.
    EmptyPayload,
    /// The first byte is not a known event tag.
    UnknownTag,
    /// A plain control event was followed by extra bytes.
    TrailingData,
}

/// The wire form of an event: a tag byte, then the message bytes.
pub open spec fn encode_spec(e: EventView) -> Seq<u8> {
    match e {
        EventView::Connect => seq![0u8],
        EventView::Connected => seq![1u8],
        EventView::Disconnect => seq![2u8],
        EventView::Disconnected => seq![3u8],
        EventView::Message(data) => seq![4u8] + data,
    }
}

/// The event a payload stands for, or the error that rejects it.
pub open spec fn decode_spec(bytes: Seq<u8>) -> Result<EventView, CodecError> {
    if bytes.len() == 0 {
        Err(CodecError::EmptyPayload)
    } else if bytes[0] == 4 {
        Ok(EventView::Message(bytes.drop_first()))
    } else if bytes[0] <= 3 {
        if bytes.len() == 1 {
            if bytes[0] == 0 {
                Ok(EventView::Connect)
            } else if bytes[0] == 1 {
                Ok(EventView::Connected)
            } else if bytes[0] == 2 {
                Ok(EventView::Disconnect)
            } else {
                Ok(EventView::Disconnected)
            }
        } else {
            Err(CodecError::TrailingData)
        }
    } else {
        Err(CodecError::UnknownTag)
    }
}

/// The view of a decode result.
pub open spec fn decode_result_view(r: Result<Event, CodecError>) -> Result<
    EventView,
    CodecError,
> {
    match r {
        Ok(e) => Ok(e@),
        Err(c) => Err(c),
    }
}

/// Serialize an event into its wire form.
pub fn encode(e: &Event) -> (r: Vec<u8>)
    ensures
        r@ == encode_spec(e@),
{
    let mut out: Vec<u8> = Vec::new();
    match e {
        Event::Connect => {
            out.push(0u8);
            assert(out@ =~= encode_spec(e@));
        },
        Event::Connected => {
            out.push(1u8);
            assert(out@ =~= encode_spec(e@));
        },
        Event::Disconnect => {
            out.push(2u8);
            assert(out@ =~= encode_spec(e@));
        },
        Event::Disconnected => {
            out.push(3u8);
            assert(out@ =~= encode_spec(e@));
        },
        Event::Message(data) => {
            out.push(4u8);
            let n = data.len();
            let mut i: usize = 0;
            while i < n
                invariant
                    i <= n,
                    n == data@.len(),
                    out@ == seq![4u8] + data@.take(i as int),
                decreases n - i,
            {
                out.push(data[i]);
                assert(out@ =~= seq![4u8] + data@.take(i + 1));
                i = i + 1;
            }
            assert(data@.take(n as int) =~= data@);
            assert(out@ =~= encode_spec(e@));
        },
    }
    out
}

/// Parse a payload back into an event, or say exactly why it is malformed.
pub fn decode(bytes: &Vec<u8>) -> (r: Result<Event, CodecError>)
    ensures
        decode_result_view(r) == decode_spec(bytes@),
{
    if bytes.len() == 0 {
        return Err(CodecError::EmptyPayload);
    }
    let tag = bytes[0];
    if tag == 4 {
        let n = bytes.len();
        let mut data: Vec<u8> = Vec::new();
        let mut i: usize = 1;
        while i < n
            invariant
                1 <= i <= n,
                n == bytes@.len(),
                data@ == bytes@.subrange(1, i as int),
            decreases n - i,
        {
            data.push(bytes[i]);
            assert(data@ =~= bytes@.subrange(1, i + 1));
            i = i + 1;
        }
        assert(data@ =~= bytes@.drop_first());
        Ok(Event::Message(data))
    } else if tag <= 3 {
        if bytes.len() == 1 {
            if tag == 0 {
                Ok(Event::Connect)
            } else if tag == 1 {
                Ok(Event::Connected)
            } else if tag == 2 {
                Ok(Event::Disconnect)
            } else {
                Ok(Event::Disconnected)
            }
        } else {
            Err(CodecError::TrailingData)
        }
    } else {
        Err(CodecError::UnknownTag)
    }
}

/// Law: decoding is a left inverse of encoding. Every event survives a trip
/// through the wire form unchanged.
pub proof fn lemma_codec_round_trip(e: EventView)
    ensures
        decode_spec(encode_spec(e)) == Ok::<EventView, CodecError>(e),
{
    match e {
        EventView::Message(data) => {
            assert((seq![4u8] + data).drop_first() =~= data);
        },
        _ => {},
    }
}

} // verus!
