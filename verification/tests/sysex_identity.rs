//! SysEx reassembly and the identity inquiry.
use matrix_midi::sysex::{
    identity_request_bytes, identity_response_bytes, process_sysex, SysexAssembler, SysexFeed,
};
use matrix_midi::MidiError;

const REQUEST: [u8; 6] = [0xF0, 0x7E, 0x7F, 0x06, 0x01, 0xF7];
const RESPONSE: [u8; 15] = [
    0xF0, 0x7E, 0x7F, 0x06, 0x02, 0x01, 0x02, 0x03, 0x04, 0x05, 0x00, 0x00, 0x00, 0x00, 0xF7,
];

#[test]
fn identity_constants_match_wire_values() {
    assert_eq!(identity_request_bytes(), REQUEST.to_vec());
    assert_eq!(identity_response_bytes(), RESPONSE.to_vec());
}

#[test]
fn identity_request_yields_fixed_response() {
    // the literal scenario: the 6-byte inquiry earns the 15-byte reply
    let r = process_sysex(&REQUEST).expect("response owed");
    assert_eq!(r, RESPONSE.to_vec());
}

#[test]
fn non_matching_payload_yields_no_response() {
    assert!(process_sysex(&[0xF0, 0x7E, 0x7F, 0x06, 0x02, 0xF7]).is_none());
    assert!(process_sysex(&[]).is_none());
    assert!(process_sysex(&[0xF0, 0xF7]).is_none());
    // one byte off anywhere is not the request
    let mut nearly = REQUEST;
    nearly[4] = 0x02;
    assert!(process_sysex(&nearly).is_none());
}

fn complete_response(feed: Result<SysexFeed, MidiError>) -> Option<Vec<u8>> {
    match feed.expect("no error owed") {
        SysexFeed::Complete(resp) => resp,
        SysexFeed::Pending => panic!("message should have completed"),
    }
}

#[test]
fn request_in_one_feed() {
    let mut a = SysexAssembler::new();
    let r = complete_response(a.feed(true, true, &REQUEST));
    assert_eq!(r, Some(RESPONSE.to_vec()));
}

#[test]
fn request_in_two_feeds() {
    let mut a = SysexAssembler::new();
    assert!(matches!(
        a.feed(true, false, &REQUEST[..3]),
        Ok(SysexFeed::Pending)
    ));
    let r = complete_response(a.feed(false, true, &REQUEST[3..]));
    assert_eq!(r, Some(RESPONSE.to_vec()));
}

#[test]
fn request_in_six_feeds() {
    let mut a = SysexAssembler::new();
    for k in 0..5 {
        assert!(matches!(
            a.feed(k == 0, false, &REQUEST[k..k + 1]),
            Ok(SysexFeed::Pending)
        ));
    }
    let r = complete_response(a.feed(false, true, &REQUEST[5..6]));
    assert_eq!(r, Some(RESPONSE.to_vec()));
}

#[test]
fn unknown_message_completes_without_response_or_error() {
    let mut a = SysexAssembler::new();
    let r = complete_response(a.feed(true, true, &[0xF0, 0x41, 0x10, 0xF7]));
    assert!(r.is_none());
}

#[test]
fn overflow_without_end_flag_then_start_recovers() {
    let mut a = SysexAssembler::new();
    assert!(matches!(a.feed(true, false, &[0u8; 60]), Ok(SysexFeed::Pending)));
    // 60 + 5 exceeds the 64-byte capacity
    assert!(matches!(
        a.feed(false, false, &[0u8; 5]),
        Err(MidiError::BufferOverflow)
    ));
    // the abandoned message keeps failing until a start flag clears it
    assert!(matches!(
        a.feed(false, false, &[0u8; 5]),
        Err(MidiError::BufferOverflow)
    ));
    let r = complete_response(a.feed(true, true, &REQUEST));
    assert_eq!(r, Some(RESPONSE.to_vec()));
}

#[test]
fn start_flag_discards_partial_message() {
    let mut a = SysexAssembler::new();
    assert!(matches!(
        a.feed(true, false, &[0xF0, 0x01, 0x02]),
        Ok(SysexFeed::Pending)
    ));
    // a new start discards the partial message and reassembles the request
    assert!(matches!(
        a.feed(true, false, &REQUEST[..3]),
        Ok(SysexFeed::Pending)
    ));
    let r = complete_response(a.feed(false, true, &REQUEST[3..]));
    assert_eq!(r, Some(RESPONSE.to_vec()));
}
