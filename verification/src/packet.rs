//! USB-MIDI wire packets: the 4-byte event packet of the `usbd_midi` crate,
//! framing of outbound payloads, and the chunked, retryable transmission of
//! a SysEx response.
//!
//! A packet is 4 bytes: a header whose high nibble is the virtual cable and
//! whose low nibble is the code index number (CIN), then up to 3 payload
//! bytes, zero-padded. All traffic here uses cable 0.
use vstd::prelude::*;
use crate::events::{MidiEvent, encode_event};
use crate::MidiError;

verus! {

/// How many payload bytes a packet with the given CIN carries.
pub open spec fn cin_payload_size(cin: u8) -> int {
    if cin == 0x5 || cin == 0xF {
        1
    } else if cin == 0x2 || cin == 0x6 || cin == 0xC || cin == 0xD {
        2
    } else {
        3
    }
}

/// Whether a raw 4-byte packet carries part of a SysEx message.
pub open spec fn raw_is_sysex(raw: Seq<u8>) -> bool {
    let cin = raw[0] & 0x0F;
    if cin == 0x4 || cin == 0x6 || cin == 0x7 {
        true
    } else if cin == 0x5 {
        raw[1] == 0xF7
    } else if cin == 0xF {
        raw[1] < 0x80
    } else {
        false
    }
}

/// Whether a raw packet carries the start of a SysEx message.
pub open spec fn raw_is_sysex_start(raw: Seq<u8>) -> bool {
    raw_is_sysex(raw) && raw[1] == 0xF0
}

/// Whether a raw packet carries the end of a SysEx message.
pub open spec fn raw_is_sysex_end(raw: Seq<u8>) -> bool {
    raw_is_sysex(raw) && (raw[1] == 0xF7 || raw[2] == 0xF7 || raw[3] == 0xF7)
}

/// The payload bytes of a raw packet, sized by its CIN.
pub open spec fn raw_payload(raw: Seq<u8>) -> Seq<u8> {
    raw.subrange(1, 1 + cin_payload_size(raw[0] & 0x0F))
}

/// The CIN chosen for an outbound payload, from its leading status byte
/// and, for SysEx fragments, its length and terminator; None when no
/// packet can be built from the payload.
pub open spec fn cin_of_payload(p: Seq<u8>) -> Option<u8> {
    if p.len() == 0 {
        None
    } else {
        let status = p[0];
        if status < 0xF0 {
            if status & 0xF0 == 0x80 {
                Some(0x8u8)
            } else if status & 0xF0 == 0x90 {
                Some(0x9u8)
            } else if status & 0xF0 == 0xA0 {
                Some(0xAu8)
            } else if status & 0xF0 == 0xB0 {
                Some(0xBu8)
            } else if status & 0xF0 == 0xC0 {
                Some(0xCu8)
            } else if status & 0xF0 == 0xD0 {
                Some(0xDu8)
            } else if status & 0xF0 == 0xE0 {
                Some(0xEu8)
            } else if p.len() > 1 && p[1] == 0xF7 {
                Some(0x6u8)
            } else if p.len() > 2 && p[2] == 0xF7 {
                Some(0x7u8)
            } else if p.len() == 1 {
                Some(0xFu8)
            } else if p.len() > 2 {
                Some(0x4u8)
            } else {
                None
            }
        } else {
            if status == 0xF0 {
                if p.len() > 1 && p[1] == 0xF7 {
                    Some(0x6u8)
                } else if p.len() > 2 && p[2] == 0xF7 {
                    Some(0x7u8)
                } else if p.len() > 2 {
                    Some(0x4u8)
                } else {
                    None
                }
            } else if status == 0xF1 || status == 0xF3 {
                Some(0x2u8)
            } else if status == 0xF2 {
                Some(0x3u8)
            } else if status == 0xF6 || status == 0xF7 {
                Some(0x5u8)
            } else if status == 0xF8 || status == 0xF9 || status == 0xFA || status == 0xFB
                || status == 0xFC || status == 0xFE || status == 0xFF {
                Some(0xFu8)
            } else {
                None
            }
        }
    }
}

/// Whether a payload can be framed: it determines a CIN and is long
/// enough for it.
pub open spec fn frameable(p: Seq<u8>) -> bool {
    match cin_of_payload(p) {
        Some(cin) => p.len() >= cin_payload_size(cin),
        None => false,
    }
}

/// The raw 4 bytes of a cable-0 packet framing the payload: the CIN as
/// header, the payload truncated to the CIN's size, zero-padded.
pub open spec fn framed_bytes(p: Seq<u8>) -> Seq<u8> {
    let cin = cin_of_payload(p)->Some_0;
    let size = cin_payload_size(cin);
    Seq::new(
        4,
        |i: int|
            if i == 0 {
                cin
            } else if i <= size {
                p[i - 1]
            } else {
                0u8
            },
    )
}

/// Declares the packet type of the `usbd_midi` crate; a value is opaque
/// here and `packet_bytes` names its 4 raw bytes.
#[verifier::external_type_specification]
#[verifier::external_body]
pub struct ExUsbMidiEventPacket(usbd_midi::packet::UsbMidiEventPacket);

/// The raw bytes a packet holds.
pub uninterp spec fn packet_bytes(p: usbd_midi::packet::UsbMidiEventPacket) -> Seq<u8>;

/// Relies on usbd_midi's UsbMidiEventPacket::try_from for byte slices:
/// a 4-byte slice is taken verbatim as a packet's raw bytes.
#[verifier::external_body]
pub(crate) fn packet_from_raw(b: &[u8]) -> (p: usbd_midi::packet::UsbMidiEventPacket)
    requires
        b@.len() == 4,
    ensures
        packet_bytes(p) == b@,
        packet_bytes(p).len() == 4,
{
    usbd_midi::packet::UsbMidiEventPacket::try_from(b).unwrap()
}

/// Relies on usbd_midi's UsbMidiEventPacket::try_from_payload_bytes on
/// cable 0: it picks the CIN from the payload content, rejects payloads
/// shorter than the CIN's size, and copies the sized payload zero-padded
/// after the header byte.
#[verifier::external_body]
pub(crate) fn frame_payload(payload: &[u8]) -> (r: Option<usbd_midi::packet::UsbMidiEventPacket>)
    ensures
        r is Some <==> frameable(payload@),
        match r {
            Some(p) => packet_bytes(p) == framed_bytes(payload@) && packet_bytes(p).len() == 4,
            None => true,
        },
{
    usbd_midi::packet::UsbMidiEventPacket::try_from_payload_bytes(
        usbd_midi::packet::cable_number::CableNumber::Cable0,
        payload,
    ).ok()
}

/// Relies on usbd_midi's UsbMidiEventPacket::is_sysex: true for the SysEx
/// start/continue/end CINs, for a 1-byte packet carrying 0xF7, and for a
/// single data byte.
pub assume_specification[ usbd_midi::packet::UsbMidiEventPacket::is_sysex ](
    p: &usbd_midi::packet::UsbMidiEventPacket,
) -> (r: bool)
    ensures
        r == raw_is_sysex(packet_bytes(*p)),
;

/// Relies on usbd_midi's UsbMidiEventPacket::is_sysex_start: a SysEx
/// packet whose first payload byte is 0xF0.
pub assume_specification[ usbd_midi::packet::UsbMidiEventPacket::is_sysex_start ](
    p: &usbd_midi::packet::UsbMidiEventPacket,
) -> (r: bool)
    ensures
        r == raw_is_sysex_start(packet_bytes(*p)),
;

/// Relies on usbd_midi's UsbMidiEventPacket::is_sysex_end: a SysEx packet
/// with 0xF7 among its payload bytes.
pub assume_specification[ usbd_midi::packet::UsbMidiEventPacket::is_sysex_end ](
    p: &usbd_midi::packet::UsbMidiEventPacket,
) -> (r: bool)
    ensures
        r == raw_is_sysex_end(packet_bytes(*p)),
;

/// Relies on usbd_midi's UsbMidiEventPacket::payload_bytes: the slice of
/// the raw bytes after the header, sized by the CIN.
pub assume_specification[ usbd_midi::packet::UsbMidiEventPacket::payload_bytes ](
    p: &usbd_midi::packet::UsbMidiEventPacket,
) -> (r: &[u8])
    ensures
        r@ == raw_payload(packet_bytes(*p)),
;

/// Relies on usbd_midi's UsbMidiEventPacket::to_raw_bytes: the raw bytes
/// as an owned array.
pub assume_specification[ usbd_midi::packet::UsbMidiEventPacket::to_raw_bytes ](
    p: &usbd_midi::packet::UsbMidiEventPacket,
) -> (r: [u8; 4])
    ensures
        r@ == packet_bytes(*p),
;

/// The raw bytes of a packet, for transmission or inspection.
pub fn packet_raw_bytes(p: &usbd_midi::packet::UsbMidiEventPacket) -> (r: [u8; 4])
    ensures
        r@ == packet_bytes(*p),
{
    p.to_raw_bytes()
}

/// The 4 raw bytes framing a note event on cable 0.
pub open spec fn framed_event_bytes(e: MidiEvent) -> Seq<u8> {
    match e {
        MidiEvent::NoteOn(c, n, v) => seq![0x09u8, (0x90u8 | c) as u8, n, v],
        MidiEvent::NoteOff(c, n, v) => seq![0x08u8, (0x80u8 | c) as u8, n, v],
    }
}

/// Frames one note event as a single cable-0 packet.
pub fn frame_event(ev: &MidiEvent) -> (p: usbd_midi::packet::UsbMidiEventPacket)
    requires
        ev.wf(),
    ensures
        packet_bytes(p) == framed_bytes(encode_event(*ev)),
        packet_bytes(p) =~= framed_event_bytes(*ev),
        packet_bytes(p).len() == 4,
{
    let bytes = crate::events::render_note_message(ev);
    proof {
        let enc = encode_event(*ev);
        match *ev {
            MidiEvent::NoteOn(c, n, v) => {
                assert((0x90u8 | c) & 0xF0u8 == 0x90u8 && (0x90u8 | c) < 0xF0u8) by (bit_vector)
                    requires c <= 15u8;
                assert(cin_of_payload(enc) == Some(0x9u8));
            },
            MidiEvent::NoteOff(c, n, v) => {
                assert((0x80u8 | c) & 0xF0u8 == 0x80u8 && (0x80u8 | c) < 0xF0u8) by (bit_vector)
                    requires c <= 15u8;
                assert(cin_of_payload(enc) == Some(0x8u8));
            },
        }
        assert(frameable(enc));
        assert(framed_bytes(enc) =~= framed_event_bytes(*ev));
    }
    let p = frame_payload(bytes.as_slice());
    p.unwrap()
}

/// Outcome of handing one packet to the transport, as the edge reports
/// it: sent, transient backpressure, or a hard fault.
#[derive(Clone, Copy, Debug, PartialEq, Eq, Structural)]
pub enum SendOutcome {
    Sent,
    WouldBlock,
    Failed,
}

/// The k-th 3-byte chunk of a response.
pub open spec fn chunk_at(bytes: Seq<u8>, pos: int) -> Seq<u8> {
    bytes.subrange(pos, if pos + 3 <= bytes.len() { pos + 3 } else { bytes.len() as int })
}

/// Whether every 3-byte chunk of a response can be framed as a packet.
pub open spec fn chunks_frameable(bytes: Seq<u8>) -> bool {
    forall|pos: int|
        (0 <= pos < bytes.len() && pos % 3 == 0) ==> frameable(#[trigger] chunk_at(bytes, pos))
}

/// Where acceptance of the current chunk moves the send position.
pub open spec fn sent_pos(pos: int, len: int) -> int {
    if pos + 3 <= len {
        pos + 3
    } else {
        len
    }
}

/// Sends a SysEx response as consecutive 3-byte packets: each chunk is
/// retried while the transport reports backpressure, a hard fault aborts
/// the remainder, and the sender is done once every chunk was accepted.
pub struct ResponseSender {
    bytes: Vec<u8>,
    pos: usize,
}

impl ResponseSender {
    pub closed spec fn bytes_spec(&self) -> Seq<u8> {
        self.bytes@
    }

    pub closed spec fn pos_spec(&self) -> int {
        self.pos as int
    }

    pub open spec fn wf(&self) -> bool {
        &&& 0 <= self.pos_spec() <= self.bytes_spec().len()
        &&& (self.pos_spec() % 3 == 0 || self.pos_spec() == self.bytes_spec().len())
        &&& chunks_frameable(self.bytes_spec())
    }

    /// A sender for the given response bytes, positioned at the first chunk.
    pub fn new(bytes: Vec<u8>) -> (s: ResponseSender)
        requires
            chunks_frameable(bytes@),
        ensures
            s.wf(),
            s.bytes_spec() == bytes@,
            s.pos_spec() == 0,
    {
        ResponseSender { bytes, pos: 0 }
    }

    /// Whether every chunk has been accepted by the transport.
    pub fn is_done(&self) -> (r: bool)
        ensures
            r == (self.pos_spec() == self.bytes_spec().len()),
    {
        self.pos == self.bytes.len()
    }

    /// The packet for the current chunk, or None when all chunks are sent.
    pub fn next_packet(&self) -> (r: Option<usbd_midi::packet::UsbMidiEventPacket>)
        requires
            self.wf(),
        ensures
            r is Some <==> self.pos_spec() < self.bytes_spec().len(),
            match r {
                Some(p) => packet_bytes(p) == framed_bytes(
                    chunk_at(self.bytes_spec(), self.pos_spec()),
                ),
                None => true,
            },
    {
        if self.pos == self.bytes.len() {
            return None;
        }
        let upper: usize = if self.bytes.len() - self.pos >= 3 {
            self.pos + 3
        } else {
            self.bytes.len()
        };
        let chunk: &[u8] = self.bytes.as_slice();
        let sub = slice_part(chunk, self.pos, upper);
        assert(sub@ == chunk_at(self.bytes_spec(), self.pos_spec()));
        let p = frame_payload(sub);
        Some(p.unwrap())
    }

    /// Records what the transport did with the current chunk: acceptance
    /// advances to the next chunk, backpressure leaves it to be retried,
    /// and a hard fault is surfaced as a transport error.
    pub fn advance(&mut self, outcome: SendOutcome) -> (r: Result<(), MidiError>)
        requires
            old(self).wf(),
            old(self).pos_spec() < old(self).bytes_spec().len(),
        ensures
            final(self).wf(),
            final(self).bytes_spec() == old(self).bytes_spec(),
            outcome == SendOutcome::Sent ==> r == Ok::<(), MidiError>(())
                && final(self).pos_spec() == sent_pos(old(self).pos_spec(), old(self).bytes_spec().len() as int),
            outcome == SendOutcome::WouldBlock ==> r == Ok::<(), MidiError>(())
                && final(self).pos_spec() == old(self).pos_spec(),
            outcome == SendOutcome::Failed ==> r == Err::<(), MidiError>(MidiError::Transport)
                && final(self).pos_spec() == old(self).pos_spec(),
    {
        match outcome {
            SendOutcome::Sent => {
                if self.bytes.len() - self.pos >= 3 {
                    self.pos = self.pos + 3;
                } else {
                    self.pos = self.bytes.len();
                }
                Ok(())
            },
            SendOutcome::WouldBlock => Ok(()),
            SendOutcome::Failed => Err(MidiError::Transport),
        }
    }
}

/// The subslice [from, to) of a byte slice.
pub(crate) fn slice_part(s: &[u8], from: usize, to: usize) -> (r: &[u8])
    requires
        from <= to <= s@.len(),
    ensures
        r@ == s@.subrange(from as int, to as int),
{
    vstd::slice::slice_subrange(s, from, to)
}

} // verus!
