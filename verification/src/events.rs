//! Note events produced by the matrix and their 3-byte wire encoding.
use vstd::prelude::*;
use midi_convert::midi_types::{Channel, MidiMessage, Note, Value7};
use midi_convert::render_slice::MidiRenderSlice;
use midi_convert::parse::MidiTryParseSlice;

verus! {

/// The single MIDI channel all events are sent on.
pub const FIXED_CHANNEL: u8 = 1;

/// Velocity of every note-on event; the switches carry no velocity.
pub const VELOCITY_ON: u8 = 127;

/// Velocity of every note-off event.
pub const VELOCITY_OFF: u8 = 0;

/// A channel-voice note event: channel, note number, velocity.
#[derive(Clone, Copy, Debug, PartialEq, Eq, Structural)]
pub enum MidiEvent {
    NoteOn(u8, u8, u8),
    NoteOff(u8, u8, u8),
}

impl MidiEvent {
    /// Field ranges of a well-formed event: 4-bit channel, 7-bit data bytes.
    pub open spec fn wf(self) -> bool {
        match self {
            MidiEvent::NoteOn(c, n, v) => c <= 15 && n <= 127 && v <= 127,
            MidiEvent::NoteOff(c, n, v) => c <= 15 && n <= 127 && v <= 127,
        }
    }
}

/// The 3-byte channel-voice wire encoding of a note event:
/// status nibble (0x9 on, 0x8 off) with the channel, then note, then velocity.
pub open spec fn encode_event(e: MidiEvent) -> Seq<u8> {
    match e {
        MidiEvent::NoteOn(c, n, v) => seq![(0x90u8 | c) as u8, n, v],
        MidiEvent::NoteOff(c, n, v) => seq![(0x80u8 | c) as u8, n, v],
    }
}

/// Relies on midi_convert's MidiRenderSlice for MidiMessage: a note
/// message renders as its status byte carrying the channel, then the note
/// number, then the velocity. The field ranges required here keep the
/// midi_types constructors total.
#[verifier::external_body]
pub(crate) fn render_note_message(ev: &MidiEvent) -> (r: Vec<u8>)
    requires
        ev.wf(),
    ensures
        r@ == encode_event(*ev),
{
    let msg = match *ev {
        MidiEvent::NoteOn(c, n, v) => MidiMessage::NoteOn(
            Channel::from(c),
            Note::from(n),
            Value7::from(v),
        ),
        MidiEvent::NoteOff(c, n, v) => MidiMessage::NoteOff(
            Channel::from(c),
            Note::from(n),
            Value7::from(v),
        ),
    };
    let mut buf = [0u8; 3];
    msg.render_slice(&mut buf);
    buf.to_vec()
}

/// A channel-voice payload as the inbound dispatch sees it after parsing.
#[derive(Clone, Copy, Debug, PartialEq, Eq, Structural)]
pub enum ParsedVoice {
    /// A note-on: channel, note, velocity.
    NoteOn(u8, u8, u8),
    /// A note-off: channel, note, velocity.
    NoteOff(u8, u8, u8),
    /// Some other well-formed channel-voice or system message.
    Other,
    /// No MIDI message could be parsed from the payload.
    Invalid,
}

/// What parsing a channel-voice payload yields, mirrored from the status
/// ranges and length checks of midi_convert's slice parser. Defined for
/// payloads whose data bytes stay below 0x80.
pub open spec fn voice_parse(b: Seq<u8>) -> ParsedVoice {
    if b.len() == 0 {
        ParsedVoice::Invalid
    } else {
        let s = b[0];
        if s == 0xF6 || s == 0xF8 || s == 0xFA || s == 0xFB || s == 0xFC || s == 0xFE || s
            == 0xFF {
            ParsedVoice::Other
        } else if (0xC0 <= s && s < 0xE0) || s == 0xF1 || s == 0xF3 {
            if b.len() >= 2 {
                ParsedVoice::Other
            } else {
                ParsedVoice::Invalid
            }
        } else if 0x80 <= s && s < 0x90 {
            if b.len() >= 3 {
                ParsedVoice::NoteOff((s & 0x0F) as u8, b[1], b[2])
            } else {
                ParsedVoice::Invalid
            }
        } else if 0x90 <= s && s < 0xA0 {
            if b.len() >= 3 {
                ParsedVoice::NoteOn((s & 0x0F) as u8, b[1], b[2])
            } else {
                ParsedVoice::Invalid
            }
        } else if (0xA0 <= s && s < 0xC0) || (0xE0 <= s && s < 0xF0) || s == 0xF2 {
            if b.len() >= 3 {
                ParsedVoice::Other
            } else {
                ParsedVoice::Invalid
            }
        } else {
            ParsedVoice::Invalid
        }
    }
}

/// Relies on midi_convert's MidiTryParseSlice for MidiMessage: the status
/// byte picks the message kind and its length, note messages carry their
/// channel and two data bytes. Payloads with a data byte at or above 0x80
/// are left out: the midi_types constructors reject them.
#[verifier::external_body]
pub(crate) fn parse_voice(buf: &[u8]) -> (r: ParsedVoice)
    requires
        forall|i: int| 1 <= i < buf@.len() ==> buf@[i] < 0x80,
    ensures
        r == voice_parse(buf@),
{
    match MidiMessage::try_parse_slice(buf) {
        Ok(MidiMessage::NoteOn(c, n, v)) => ParsedVoice::NoteOn(c.into(), n.into(), v.into()),
        Ok(MidiMessage::NoteOff(c, n, v)) => ParsedVoice::NoteOff(c.into(), n.into(), v.into()),
        Ok(_) => ParsedVoice::Other,
        Err(_) => ParsedVoice::Invalid,
    }
}

} // verus!
