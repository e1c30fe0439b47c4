//! Reassembly of multi-packet SysEx messages into a bounded buffer, and
//! dispatch of a completed message: the device-identity inquiry is answered,
//! everything else is silently dropped.
use vstd::prelude::*;
use crate::MidiError;

verus! {

/// Capacity of the SysEx reassembly buffer, in bytes.
pub const SYSEX_BUFFER_SIZE: usize = 64;

/// The MIDI Device Inquiry request, as one complete SysEx message.
pub open spec fn identity_request() -> Seq<u8> {
    seq![0xF0u8, 0x7Eu8, 0x7Fu8, 0x06u8, 0x01u8, 0xF7u8]
}

/// The fixed identity response: inquiry reply header, then manufacturer,
/// family, member and revision fields.
pub open spec fn identity_response() -> Seq<u8> {
    seq![
        0xF0u8, 0x7Eu8, 0x7Fu8, 0x06u8, 0x02u8, 0x01u8, 0x02u8, 0x03u8, 0x04u8, 0x05u8, 0x00u8,
        0x00u8, 0x00u8, 0x00u8, 0xF7u8,
    ]
}

/// The response a completed SysEx payload earns: the identity response for
/// an exact identity request, nothing for any other payload.
pub open spec fn sysex_response(payload: Seq<u8>) -> Option<Seq<u8>> {
    if payload == identity_request() {
        Some(identity_response())
    } else {
        None
    }
}

/// The identity request as bytes.
pub fn identity_request_bytes() -> (r: Vec<u8>)
    ensures
        r@ == identity_request(),
{
    let mut v: Vec<u8> = Vec::new();
    v.push(0xF0);
    v.push(0x7E);
    v.push(0x7F);
    v.push(0x06);
    v.push(0x01);
    v.push(0xF7);
    assert(v@ =~= identity_request());
    v
}

/// The identity response as bytes.
pub fn identity_response_bytes() -> (r: Vec<u8>)
    ensures
        r@ == identity_response(),
{
    let mut v: Vec<u8> = Vec::new();
    v.push(0xF0);
    v.push(0x7E);
    v.push(0x7F);
    v.push(0x06);
    v.push(0x02);
    v.push(0x01);
    v.push(0x02);
    v.push(0x03);
    v.push(0x04);
    v.push(0x05);
    v.push(0x00);
    v.push(0x00);
    v.push(0x00);
    v.push(0x00);
    v.push(0xF7);
    assert(v@ =~= identity_response());
    v
}

/// Matches a completed SysEx payload against the known requests. The
/// identity request yields the fixed identity response; any other payload
/// yields nothing, which is not an error.
pub fn process_sysex(request: &[u8]) -> (r: Option<Vec<u8>>)
    ensures
        r is Some <==> request@ == identity_request(),
        match r {
            Some(v) => v@ == identity_response(),
            None => true,
        },
{
    let req = identity_request_bytes();
    if request.len() != req.len() {
        assert(request@ != identity_request());
        return None;
    }
    let mut i: usize = 0;
    while i < req.len()
        invariant
            i <= req@.len(),
            request@.len() == req@.len(),
            req@ == identity_request(),
            forall|k: int| 0 <= k < i ==> request@[k] == req@[k],
        decreases req@.len() - i,
    {
        if request[i] != req[i] {
            assert(request@ != identity_request());
            return None;
        }
        i = i + 1;
    }
    assert(request@ =~= identity_request());
    Some(identity_response_bytes())
}

/// Bounded byte store backing the reassembler: a fixed-capacity vector of
/// the `heapless` crate. The vector type cannot be declared to the
/// verifier (its item-count parameter carries a sealed trait bound), so it
/// is held opaquely here; `store_bytes` names its contents and the
/// wrappers below state what each call does to them.
#[verifier::external_body]
pub struct SysexStore {
    inner: heapless::Vec<u8, SYSEX_BUFFER_SIZE>,
}

/// The bytes the store currently holds, oldest first.
pub uninterp spec fn store_bytes(s: SysexStore) -> Seq<u8>;

/// Relies on heapless::Vec::new: a fresh vector is empty.
#[verifier::external_body]
fn store_new() -> (s: SysexStore)
    ensures
        store_bytes(s) == Seq::<u8>::empty(),
{
    SysexStore { inner: heapless::Vec::new() }
}

/// Relies on heapless::Vec::clear: afterwards the vector is empty.
#[verifier::external_body]
fn store_clear(s: &mut SysexStore)
    ensures
        store_bytes(*final(s)) == Seq::<u8>::empty(),
{
    s.inner.clear();
}

/// Relies on heapless::Vec::extend_from_slice: appends all of `bytes` if
/// they fit within the capacity, and otherwise returns an error leaving
/// the vector unchanged.
#[verifier::external_body]
fn store_extend(s: &mut SysexStore, bytes: &[u8]) -> (ok: bool)
    ensures
        ok == (store_bytes(*old(s)).len() + bytes@.len() <= SYSEX_BUFFER_SIZE),
        ok ==> store_bytes(*final(s)) == store_bytes(*old(s) ) + bytes@,
        !ok ==> store_bytes(*final(s)) == store_bytes(*old(s)),
{
    s.inner.extend_from_slice(bytes).is_ok()
}

/// Relies on heapless::Vec::as_slice: the stored bytes in order.
#[verifier::external_body]
fn store_slice(s: &SysexStore) -> (r: &[u8])
    ensures
        r@ == store_bytes(*s),
{
    s.inner.as_slice()
}

/// What one fed packet did to the reassembler.
pub enum SysexFeed {
    /// The message is still in progress.
    Pending,
    /// A complete message was dispatched; the response it earned, if any.
    Complete(Option<Vec<u8>>),
}

/// Spec-level outcome of feeding one packet.
pub enum FeedResult {
    /// The payload did not fit; the message is abandoned until the next
    /// start flag.
    Overflow,
    /// The message is still in progress.
    Pending,
    /// This packet completed the message with the given payload.
    Complete(Seq<u8>),
}

/// The reassembler transition for one packet: a start flag clears the
/// buffer, the payload is appended (overflow abandons the message), and an
/// end flag consumes and clears the buffer.
pub open spec fn feed_step(buf: Seq<u8>, start: bool, end: bool, payload: Seq<u8>) -> (
    Seq<u8>,
    FeedResult,
) {
    let b0 = if start {
        Seq::<u8>::empty()
    } else {
        buf
    };
    if b0.len() + payload.len() > SYSEX_BUFFER_SIZE {
        (b0, FeedResult::Overflow)
    } else {
        let b1 = b0 + payload;
        if end {
            (Seq::<u8>::empty(), FeedResult::Complete(b1))
        } else {
            (b1, FeedResult::Pending)
        }
    }
}

/// Accumulates the payload fragments of one in-progress SysEx message.
pub struct SysexAssembler {
    store: SysexStore,
}

impl View for SysexAssembler {
    type V = Seq<u8>;

    closed spec fn view(&self) -> Seq<u8> {
        store_bytes(self.store)
    }
}

impl SysexAssembler {
    pub open spec fn wf(&self) -> bool {
        self@.len() <= SYSEX_BUFFER_SIZE
    }

    /// A fresh reassembler with an empty buffer.
    pub fn new() -> (a: SysexAssembler)
        ensures
            a@ == Seq::<u8>::empty(),
            a.wf(),
    {
        SysexAssembler { store: store_new() }
    }

    /// Feeds the payload of one SysEx packet, with its start and end
    /// flags. A completed message is dispatched through `process_sysex`;
    /// an unknown message completes without a response and without error.
    pub fn feed(&mut self, start: bool, end: bool, payload: &[u8]) -> (r: Result<
        SysexFeed,
        MidiError,
    >)
        requires
            old(self).wf(),
        ensures
            final(self).wf(),
            final(self)@ == feed_step(old(self)@, start, end, payload@).0,
            match feed_step(old(self)@, start, end, payload@).1 {
                FeedResult::Overflow => r == Err::<SysexFeed, MidiError>(MidiError::BufferOverflow),
                FeedResult::Pending => r == Ok::<SysexFeed, MidiError>(SysexFeed::Pending),
                FeedResult::Complete(msg) => r matches Ok(SysexFeed::Complete(resp)) && (match resp {
                    Some(v) => sysex_response(msg) == Some(v@),
                    None => sysex_response(msg) is None,
                }),
            },
    {
        if start {
            store_clear(&mut self.store);
        }
        let ok = store_extend(&mut self.store, payload);
        if !ok {
            return Err(MidiError::BufferOverflow);
        }
        if !end {
            return Ok(SysexFeed::Pending);
        }
        let resp = process_sysex(store_slice(&self.store));
        store_clear(&mut self.store);
        Ok(SysexFeed::Complete(resp))
    }
}

/// The concatenation of the first k chunks.
pub open spec fn concat_prefix(chunks: Seq<Seq<u8>>, k: int) -> Seq<u8>
    decreases k,
{
    if k <= 0 {
        Seq::empty()
    } else {
        concat_prefix(chunks, k - 1) + chunks[k - 1]
    }
}

/// The concatenation of all chunks.
pub open spec fn concat_chunks(chunks: Seq<Seq<u8>>) -> Seq<u8> {
    concat_prefix(chunks, chunks.len() as int)
}

/// A prefix of the chunks concatenates to no more bytes than a longer one.
pub proof fn lemma_concat_prefix_len(chunks: Seq<Seq<u8>>, k: int, j: int)
    requires
        0 <= k <= j,
    ensures
        concat_prefix(chunks, k).len() <= concat_prefix(chunks, j).len(),
    decreases j - k,
{
    if k < j {
        lemma_concat_prefix_len(chunks, k, j - 1);
    }
}

/// The reassembler state after the first k packets of a message split
/// into `chunks`: packet 0 carries the start flag, the last packet the
/// end flag.
pub open spec fn split_state(buf0: Seq<u8>, chunks: Seq<Seq<u8>>, k: int) -> Seq<u8>
    decreases k,
{
    if k <= 0 {
        buf0
    } else {
        feed_step(
            split_state(buf0, chunks, k - 1),
            k - 1 == 0,
            k - 1 == chunks.len() - 1,
            chunks[k - 1],
        ).0
    }
}

/// What feeding packet k of the split message yields.
pub open spec fn split_result(buf0: Seq<u8>, chunks: Seq<Seq<u8>>, k: int) -> FeedResult {
    feed_step(split_state(buf0, chunks, k), k == 0, k == chunks.len() - 1, chunks[k]).1
}

/// Before the last packet, the buffer holds exactly the bytes fed so far.
proof fn lemma_split_state(buf0: Seq<u8>, chunks: Seq<Seq<u8>>, k: int)
    requires
        1 <= k < chunks.len(),
        concat_chunks(chunks).len() <= SYSEX_BUFFER_SIZE,
    ensures
        split_state(buf0, chunks, k) == concat_prefix(chunks, k),
    decreases k,
{
    lemma_concat_prefix_len(chunks, k, chunks.len() as int);
    lemma_concat_prefix_len(chunks, k - 1, chunks.len() as int);
    if k == 1 {
        assert(split_state(buf0, chunks, 1) == feed_step(buf0, true, 0 == chunks.len() - 1, chunks[0]).0);
    } else {
        lemma_split_state(buf0, chunks, k - 1);
    }
}

/// Splitting one SysEx message across any number of packets reassembles
/// it whole: whatever the buffer held before, every packet but the last
/// leaves the message in progress, and the last dispatches exactly the
/// concatenation of all the fragments — so any split of the same message
/// earns the same response.
pub proof fn lemma_reassembly_split(buf0: Seq<u8>, chunks: Seq<Seq<u8>>)
    requires
        chunks.len() >= 1,
        concat_chunks(chunks).len() <= SYSEX_BUFFER_SIZE,
    ensures
        forall|k: int| 0 <= k < chunks.len() - 1 ==> split_result(buf0, chunks, k) is Pending,
        split_result(buf0, chunks, chunks.len() - 1) == FeedResult::Complete(
            concat_chunks(chunks),
        ),
{
    let n = chunks.len() as int;
    assert forall|k: int| 0 <= k < n - 1 implies split_result(buf0, chunks, k) is Pending by {
        lemma_concat_prefix_len(chunks, k + 1, n);
        if k == 0 {
            assert(split_state(buf0, chunks, 0) == buf0);
        } else {
            lemma_split_state(buf0, chunks, k);
        }
    }
    lemma_concat_prefix_len(chunks, n, n);
    if n == 1 {
        assert(split_state(buf0, chunks, 0) == buf0);
        assert(split_result(buf0, chunks, 0) == FeedResult::Complete(
            Seq::<u8>::empty() + chunks[0],
        ));
        assert(concat_chunks(chunks) == concat_prefix(chunks, 0) + chunks[0]);
    } else {
        lemma_split_state(buf0, chunks, n - 1);
        assert(split_result(buf0, chunks, n - 1) == FeedResult::Complete(
            concat_prefix(chunks, n - 1) + chunks[n - 1],
        ));
    }
}

/// A sender loaded with the identity response, ready for its first chunk.
pub fn identity_sender() -> (s: crate::packet::ResponseSender)
    ensures
        s.wf(),
        s.bytes_spec() == identity_response(),
        s.pos_spec() == 0,
{
    let bytes = identity_response_bytes();
    proof {
        lemma_identity_response_chunks_frameable();
    }
    crate::packet::ResponseSender::new(bytes)
}

/// Every 3-byte chunk of the identity response frames as a packet: the
/// leading chunk starts with 0xF0, the middle chunks are all data bytes,
/// and the final chunk ends with 0xF7.
pub proof fn lemma_identity_response_chunks_frameable()
    ensures
        crate::packet::chunks_frameable(identity_response()),
{
    let resp = identity_response();
    assert forall|pos: int|
        (0 <= pos < resp.len() && pos % 3 == 0) implies crate::packet::frameable(
        #[trigger] crate::packet::chunk_at(resp, pos),
    ) by {
        if pos == 0 {
            assert(crate::packet::chunk_at(resp, 0) =~= seq![0xF0u8, 0x7Eu8, 0x7Fu8]);
        } else if pos == 3 {
            assert(crate::packet::chunk_at(resp, 3) =~= seq![0x06u8, 0x02u8, 0x01u8]);
        } else if pos == 6 {
            assert(crate::packet::chunk_at(resp, 6) =~= seq![0x02u8, 0x03u8, 0x04u8]);
        } else if pos == 9 {
            assert(crate::packet::chunk_at(resp, 9) =~= seq![0x05u8, 0x00u8, 0x00u8]);
        } else {
            assert(pos == 12);
            assert(crate::packet::chunk_at(resp, 12) =~= seq![0x00u8, 0x00u8, 0xF7u8]);
        }
    }
}

} // verus!
