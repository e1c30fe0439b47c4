//! Packet framing, inbound dispatch, and the chunked response sender.
use matrix_midi::compose_loop;
use matrix_midi::dispatch::handle_midi_packets;
use matrix_midi::events::{MidiEvent, ParsedVoice};
use matrix_midi::packet::{frame_event, packet_raw_bytes, ResponseSender, SendOutcome};
use matrix_midi::sysex::SysexAssembler;
use matrix_midi::MidiError;

const RESPONSE: [u8; 15] = [
    0xF0, 0x7E, 0x7F, 0x06, 0x02, 0x01, 0x02, 0x03, 0x04, 0x05, 0x00, 0x00, 0x00, 0x00, 0xF7,
];

#[test]
fn note_events_frame_on_cable_zero() {
    let on = frame_event(&MidiEvent::NoteOn(1, 60, 127));
    assert_eq!(packet_raw_bytes(&on), [0x09, 0x91, 60, 127]);
    let off = frame_event(&MidiEvent::NoteOff(1, 60, 0));
    assert_eq!(packet_raw_bytes(&off), [0x08, 0x81, 60, 0]);
}

#[test]
fn dispatch_parses_channel_voice_packets() {
    let mut a = SysexAssembler::new();
    let buf = [0x09u8, 0x91, 0x24, 0x7F, 0x08, 0x81, 0x24, 0x00];
    let out = handle_midi_packets(&buf, 8, &mut a).expect("clean read");
    assert_eq!(
        out.voice,
        vec![ParsedVoice::NoteOn(1, 0x24, 0x7F), ParsedVoice::NoteOff(1, 0x24, 0x00)]
    );
    assert!(out.responses.is_empty());
}

#[test]
fn dispatch_reassembles_identity_request_across_packets() {
    let mut a = SysexAssembler::new();
    let buf = [0x04u8, 0xF0, 0x7E, 0x7F, 0x07, 0x06, 0x01, 0xF7];
    let out = handle_midi_packets(&buf, 8, &mut a).expect("clean read");
    assert!(out.voice.is_empty());
    assert_eq!(out.responses, vec![RESPONSE.to_vec()]);
}

#[test]
fn dispatch_aborts_read_on_malformed_packet() {
    let mut a = SysexAssembler::new();
    // an undefined status byte parses as no message and kills the read,
    // including the valid note-on that follows
    let buf = [0x0Fu8, 0xF9, 0x00, 0x00, 0x09, 0x91, 0x24, 0x7F];
    assert!(matches!(
        handle_midi_packets(&buf, 8, &mut a),
        Err(MidiError::ProtocolParse)
    ));
}

#[test]
fn dispatch_rejects_high_data_bytes() {
    let mut a = SysexAssembler::new();
    let buf = [0x09u8, 0x91, 0x99, 0x7F];
    assert!(matches!(
        handle_midi_packets(&buf, 4, &mut a),
        Err(MidiError::ProtocolParse)
    ));
}

#[test]
fn dispatch_drops_trailing_fragment() {
    let mut a = SysexAssembler::new();
    // 6 bytes hold one whole packet; the 2-byte tail is dropped
    let buf = [0x09u8, 0x91, 0x24, 0x7F, 0x09, 0x91];
    let out = handle_midi_packets(&buf, 6, &mut a).expect("clean read");
    assert_eq!(out.voice, vec![ParsedVoice::NoteOn(1, 0x24, 0x7F)]);
}

#[test]
fn dispatch_empty_read_yields_nothing() {
    let mut a = SysexAssembler::new();
    let buf = [0u8; 64];
    let out = handle_midi_packets(&buf, 0, &mut a).expect("clean read");
    assert!(out.voice.is_empty());
    assert!(out.responses.is_empty());
}

/// Drives a ResponseSender against a scripted transport and returns the
/// raw bytes of every packet the transport accepted.
fn drive(sender: &mut ResponseSender, script: &[SendOutcome]) -> Result<Vec<[u8; 4]>, MidiError> {
    let mut accepted = Vec::new();
    let mut outcomes = script.iter().copied();
    while let Some(p) = sender.next_packet() {
        let outcome = outcomes.next().expect("script exhausted");
        if outcome == SendOutcome::Sent {
            accepted.push(packet_raw_bytes(&p));
        }
        sender.advance(outcome)?;
    }
    Ok(accepted)
}

#[test]
fn response_sender_sends_all_chunks() {
    let mut s = ResponseSender::new(RESPONSE.to_vec());
    let sent = drive(&mut s, &[SendOutcome::Sent; 5]).expect("all chunks owed");
    assert_eq!(
        sent,
        vec![
            [0x04, 0xF0, 0x7E, 0x7F],
            [0x04, 0x06, 0x02, 0x01],
            [0x04, 0x02, 0x03, 0x04],
            [0x04, 0x05, 0x00, 0x00],
            [0x07, 0x00, 0x00, 0xF7],
        ]
    );
    assert!(s.is_done());
}

#[test]
fn response_sender_retries_on_backpressure() {
    let mut s = ResponseSender::new(RESPONSE.to_vec());
    let script = [
        SendOutcome::WouldBlock,
        SendOutcome::Sent,
        SendOutcome::Sent,
        SendOutcome::WouldBlock,
        SendOutcome::WouldBlock,
        SendOutcome::Sent,
        SendOutcome::Sent,
        SendOutcome::Sent,
    ];
    let sent = drive(&mut s, &script).expect("all chunks owed");
    assert_eq!(sent.len(), 5);
    assert_eq!(sent[4], [0x07, 0x00, 0x00, 0xF7]);
    assert!(s.is_done());
}

#[test]
fn response_sender_aborts_on_hard_fault() {
    let mut s = ResponseSender::new(RESPONSE.to_vec());
    let script = [SendOutcome::Sent, SendOutcome::Failed];
    assert_eq!(drive(&mut s, &script), Err(MidiError::Transport));
    assert!(!s.is_done());
}

#[test]
fn compose_loop_runs_each_closure() {
    let count = std::cell::Cell::new(0u32);
    let bump = || count.set(count.get() + 1);
    compose_loop(&[bump, bump, bump]);
    assert_eq!(count.get(), 3);
}
