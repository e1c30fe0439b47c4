//! Inbound dispatch: one USB read is split into 4-byte packets; SysEx
//! packets feed the reassembler, channel-voice packets are parsed, and the
//! first malformed packet aborts the remainder of the read.
use vstd::prelude::*;
use crate::MidiError;
use crate::events::{ParsedVoice, voice_parse, parse_voice};
use crate::packet::{
    raw_is_sysex, raw_is_sysex_start, raw_is_sysex_end, raw_payload, packet_from_raw, slice_part,
};
use crate::sysex::{
    SysexAssembler, SysexFeed, FeedResult, feed_step, sysex_response, SYSEX_BUFFER_SIZE,
};

verus! {

/// Whether every byte after the leading status byte is a data byte.
pub open spec fn data_clean(p: Seq<u8>) -> bool {
    forall|i: int| 1 <= i < p.len() ==> p[i] < 0x80
}

/// Spec state of one inbound read being dispatched: the reassembler
/// contents, the voice messages seen so far, the SysEx responses earned
/// so far, and the error that aborted the read, if any.
#[verifier::ext_equal]
pub struct DispatchModel {
    pub buf: Seq<u8>,
    pub voice: Seq<ParsedVoice>,
    pub responses: Seq<Seq<u8>>,
    pub err: Option<MidiError>,
}

pub open spec fn dispatch_wf(m: DispatchModel) -> bool {
    m.buf.len() <= SYSEX_BUFFER_SIZE
}

/// The dispatch state before a read, over a reassembler holding `buf`.
pub open spec fn init_dispatch(buf: Seq<u8>) -> DispatchModel {
    DispatchModel { buf, voice: Seq::empty(), responses: Seq::empty(), err: None }
}

/// One whole packet delivered to the dispatcher. After an error the rest
/// of the read is not processed.
pub open spec fn dispatch_packet(m: DispatchModel, raw: Seq<u8>) -> DispatchModel {
    if m.err is Some {
        m
    } else if raw_is_sysex(raw) {
        let st = feed_step(m.buf, raw_is_sysex_start(raw), raw_is_sysex_end(raw), raw_payload(raw));
        match st.1 {
            FeedResult::Overflow => DispatchModel {
                buf: st.0,
                voice: m.voice,
                responses: m.responses,
                err: Some(MidiError::BufferOverflow),
            },
            FeedResult::Pending => DispatchModel {
                buf: st.0,
                voice: m.voice,
                responses: m.responses,
                err: None,
            },
            FeedResult::Complete(msg) => DispatchModel {
                buf: st.0,
                voice: m.voice,
                responses: match sysex_response(msg) {
                    Some(resp) => m.responses.push(resp),
                    None => m.responses,
                },
                err: None,
            },
        }
    } else {
        let p = raw_payload(raw);
        if !data_clean(p) || voice_parse(p) is Invalid {
            DispatchModel {
                buf: m.buf,
                voice: m.voice,
                responses: m.responses,
                err: Some(MidiError::ProtocolParse),
            }
        } else {
            DispatchModel {
                buf: m.buf,
                voice: m.voice.push(voice_parse(p)),
                responses: m.responses,
                err: None,
            }
        }
    }
}

/// All packets of a read delivered in order.
pub open spec fn run_dispatch(m: DispatchModel, packets: Seq<Seq<u8>>) -> DispatchModel
    decreases packets.len(),
{
    if packets.len() == 0 {
        m
    } else {
        run_dispatch(dispatch_packet(m, packets.first()), packets.drop_first())
    }
}

/// The whole 4-byte packets within the first `count` bytes of a read
/// buffer; a trailing fragment is dropped.
pub open spec fn packet_seq(bytes: Seq<u8>, count: int) -> Seq<Seq<u8>> {
    Seq::new((count / 4) as nat, |k: int| bytes.subrange(4 * k, 4 * k + 4))
}

/// After an error the dispatcher ignores the rest of the read.
pub proof fn lemma_run_err(m: DispatchModel, packets: Seq<Seq<u8>>)
    requires
        m.err is Some,
    ensures
        run_dispatch(m, packets) == m,
    decreases packets.len(),
{
    if packets.len() > 0 {
        lemma_run_err(m, packets.drop_first());
    }
}

/// One packet keeps the dispatch state well-formed.
pub proof fn lemma_dispatch_packet_wf(m: DispatchModel, raw: Seq<u8>)
    requires
        dispatch_wf(m),
    ensures
        dispatch_wf(dispatch_packet(m, raw)),
{
}

/// Deliveries from the main loop and from the interrupt path are whole,
/// mutually excluded steps on the shared dispatch state; this says that
/// any such sequence of whole steps — whichever context each came from —
/// leaves only well-formed states, at the end and at every point in
/// between (instantiate `packets` with any prefix for the latter).
pub proof fn lemma_interleaved_dispatch_wf(m: DispatchModel, packets: Seq<Seq<u8>>)
    requires
        dispatch_wf(m),
    ensures
        dispatch_wf(run_dispatch(m, packets)),
    decreases packets.len(),
{
    if packets.len() > 0 {
        lemma_dispatch_packet_wf(m, packets.first());
        lemma_interleaved_dispatch_wf(dispatch_packet(m, packets.first()), packets.drop_first());
    }
}

/// What one read produced: the parsed channel-voice messages, in order,
/// and the responses of any SysEx messages completed during the read.
pub struct DispatchOutcome {
    pub voice: Vec<ParsedVoice>,
    pub responses: Vec<Vec<u8>>,
}

/// Dispatches the first `count` bytes of one USB read: each whole 4-byte
/// packet either feeds the SysEx reassembler or is parsed as a
/// channel-voice message; the first malformed packet or overflow aborts
/// the remaining packets of this read with its error.
pub fn handle_midi_packets(buf: &[u8], count: usize, assembler: &mut SysexAssembler) -> (r: Result<
    DispatchOutcome,
    MidiError,
>)
    requires
        count <= buf@.len(),
        old(assembler).wf(),
    ensures
        final(assembler).wf(),
        ({
            let fin = run_dispatch(
                init_dispatch(old(assembler)@),
                packet_seq(buf@, count as int),
            );
            &&& final(assembler)@ == fin.buf
            &&& match fin.err {
                Some(e) => r == Err::<DispatchOutcome, MidiError>(e),
                None => r matches Ok(out) && out.voice@ == fin.voice && out.responses@.map_values(
                    |v: Vec<u8>| v@,
                ) == fin.responses,
            }
        }),
{
    let ghost packets = packet_seq(buf@, count as int);
    let ghost init = init_dispatch(old(assembler)@);
    let n: usize = count / 4;
    assert(4 * (count as int / 4) <= count as int) by (nonlinear_arith);
    let mut voice: Vec<ParsedVoice> = Vec::new();
    let mut responses: Vec<Vec<u8>> = Vec::new();
    let mut k: usize = 0;
    proof {
        assert(packets.subrange(0, n as int) =~= packets);
        assert(responses@.map_values(|v: Vec<u8>| v@) =~= Seq::<Seq<u8>>::empty());
        assert((DispatchModel {
            buf: assembler@,
            voice: voice@,
            responses: responses@.map_values(|v: Vec<u8>| v@),
            err: None,
        }) =~= init);
    }
    while k < n
        invariant
            k <= n,
            n == count as int / 4,
            count <= buf@.len(),
            4 * (n as int) <= count as int,
            assembler.wf(),
            packets == packet_seq(buf@, count as int),
            init == init_dispatch(old(assembler)@),
            packets.len() == n,
            run_dispatch(init, packets) == run_dispatch(
                DispatchModel {
                    buf: assembler@,
                    voice: voice@,
                    responses: responses@.map_values(|v: Vec<u8>| v@),
                    err: None,
                },
                packets.subrange(k as int, n as int),
            ),
        decreases n - k,
    {
        let ghost cur = DispatchModel {
            buf: assembler@,
            voice: voice@,
            responses: responses@.map_values(|v: Vec<u8>| v@),
            err: None,
        };
        proof {
            assert(packets.subrange(k as int, n as int).first() == packets[k as int]);
            assert(packets.subrange(k as int, n as int).drop_first() =~= packets.subrange(
                k as int + 1,
                n as int,
            ));
        }
        let chunk = slice_part(buf, 4 * k, 4 * k + 4);
        assert(chunk@ == packets[k as int]);
        let packet = packet_from_raw(chunk);
        let ghost raw = packets[k as int];
        let ghost next = dispatch_packet(cur, raw);
        if packet.is_sysex() {
            let start = packet.is_sysex_start();
            let end = packet.is_sysex_end();
            let payload = packet.payload_bytes();
            match assembler.feed(start, end, payload) {
                Err(e) => {
                    proof {
                        lemma_run_err(next, packets.subrange(k as int + 1, n as int));
                    }
                    return Err(e);
                },
                Ok(SysexFeed::Pending) => {},
                Ok(SysexFeed::Complete(resp)) => {
                    match resp {
                        Some(v) => {
                            responses.push(v);
                            proof {
                                assert(responses@.map_values(|v: Vec<u8>| v@) =~= next.responses);
                            }
                        },
                        None => {},
                    }
                },
            }
        } else {
            let payload = packet.payload_bytes();
            let mut clean = true;
            let mut i: usize = 1;
            while i < payload.len()
                invariant
                    1 <= i,
                    i <= payload@.len() || i == 1,
                    clean <==> (forall|j: int| 1 <= j < i ==> payload@[j] < 0x80),
                decreases payload@.len() - i,
            {
                if payload[i] >= 0x80 {
                    clean = false;
                }
                i = i + 1;
            }
            assert(clean <==> data_clean(payload@));
            if !clean {
                proof {
                    lemma_run_err(next, packets.subrange(k as int + 1, n as int));
                }
                return Err(MidiError::ProtocolParse);
            }
            let pv = parse_voice(payload);
            match pv {
                ParsedVoice::Invalid => {
                    proof {
                        lemma_run_err(next, packets.subrange(k as int + 1, n as int));
                    }
                    return Err(MidiError::ProtocolParse);
                },
                v => {
                    voice.push(v);
                },
            }
        }
        k = k + 1;
    }
    assert(packets.subrange(n as int, n as int) =~= Seq::<Seq<u8>>::empty());
    Ok(DispatchOutcome { voice, responses })
}

} // verus!
