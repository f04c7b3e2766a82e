//! What a receive does over whole runs of the connection model.
use crate::codec::{be_u32_bytes, be_u32_value, lemma_u32_round_trip, u32_outcome, DecodeOutcome};
use crate::connection::{
    all_delimit, decode_step, delimits, drive, fed, is_terminal, read_step, receive_buffered, receive_model, terminal_error,
    with_state, ConnError, ConnModel, ConnState, Next, ReadEvent,
};
use vstd::prelude::*;

verus! {

/// When the buffer already starts with a whole message, a receive delivers
/// it, drops exactly its bytes and reads nothing from the transport.
pub proof fn lemma_buffered_message_needs_no_read(
    m: ConnModel,
    dec: spec_fn(Seq<u8>) -> DecodeOutcome,
    e: Seq<u8>,
    rest: Seq<u8>,
    reads: Seq<ReadEvent>,
)
    requires
        !is_terminal(m.state),
        delimits(dec, e),
        m.buffer == e + rest,
    ensures
        receive_model(m, dec, reads) == (ConnModel { buffer: rest, state: m.state }, Next::Deliver, 0nat),
{
    assert(dec(e + rest) == DecodeOutcome::Complete(e.len() as usize));
    assert((e + rest).skip(e.len() as int) =~= rest);
}

/// With no transport read available, `frames.len()` receives on a buffer
/// that holds those frames and then `tail` deliver the frames in order and
/// leave `tail`.
pub proof fn lemma_receive_buffered_frames(
    m: ConnModel,
    dec: spec_fn(Seq<u8>) -> DecodeOutcome,
    frames: Seq<Seq<u8>>,
    tail: Seq<u8>,
)
    requires
        !is_terminal(m.state),
        all_delimit(dec, frames),
        m.buffer == frames.flatten() + tail,
    ensures
        receive_buffered(m, dec, frames.len()) == (ConnModel { buffer: tail, state: m.state }, frames),
    decreases frames.len(),
{
    if frames.len() == 0 {
        assert(m.buffer =~= tail);
        assert(frames =~= Seq::<Seq<u8>>::empty());
    } else {
        let e = frames[0];
        let rest = frames.drop_first().flatten() + tail;
        assert(m.buffer =~= e + rest);
        assert(delimits(dec, frames[0]));
        lemma_buffered_message_needs_no_read(m, dec, e, rest, Seq::empty());
        let m1 = ConnModel { buffer: rest, state: m.state };
        assert forall|i: int| 0 <= i < frames.drop_first().len() implies delimits(
            dec,
            #[trigger] frames.drop_first()[i],
        ) by {
            assert(frames.drop_first()[i] == frames[i + 1]);
        }
        lemma_receive_buffered_frames(m1, dec, frames.drop_first(), tail);
        assert(m.buffer.take(m.buffer.len() - rest.len()) =~= e);
        assert(seq![e] + frames.drop_first() =~= frames);
    }
}

/// Pipelining: several whole messages that arrive in one chunk on an idle,
/// established connection are delivered one per receive, in order, none
/// lost or repeated; the first receive takes that one read and the others
/// take none.
pub proof fn lemma_pipelining(
    m: ConnModel,
    dec: spec_fn(Seq<u8>) -> DecodeOutcome,
    frames: Seq<Seq<u8>>,
    reads: Seq<ReadEvent>,
)
    requires
        m.state is Established,
        m.buffer == Seq::<u8>::empty(),
        frames.len() > 0,
        frames[0].len() > 0,
        all_delimit(dec, frames),
        reads.len() > 0,
        fed(reads[0], false, frames.flatten()),
    ensures
        ({
            let first = receive_model(m, dec, reads);
            &&& first == (
                ConnModel { buffer: frames.drop_first().flatten(), state: ConnState::Established },
                Next::Deliver,
                1nat,
            )
            &&& receive_buffered(first.0, dec, (frames.len() - 1) as nat) == (
                ConnModel { buffer: Seq::empty(), state: ConnState::Established },
                frames.drop_first(),
            )
        }),
{
    reveal_with_fuel(drive, 3);
    let e = frames[0];
    assert(delimits(dec, e));
    assert(m.buffer =~= e.take(0));
    let m1 = ConnModel { buffer: frames.flatten(), state: ConnState::Established };
    assert(m.buffer + frames.flatten() =~= frames.flatten());
    let rest = frames.drop_first().flatten();
    assert(m1.buffer =~= e + rest);
    lemma_buffered_message_needs_no_read(m1, dec, e, rest, reads.drop_first());
    assert forall|i: int| 0 <= i < frames.drop_first().len() implies delimits(
        dec,
        #[trigger] frames.drop_first()[i],
    ) by {
        assert(frames.drop_first()[i] == frames[i + 1]);
    }
    let m2 = ConnModel { buffer: rest, state: ConnState::Established };
    assert(rest =~= rest + Seq::<u8>::empty());
    lemma_receive_buffered_frames(m2, dec, frames.drop_first(), Seq::empty());
}

proof fn lemma_flatten_nonempty(chunks: Seq<Seq<u8>>)
    requires
        chunks.len() > 0,
        forall|i: int| 0 <= i < chunks.len() ==> (#[trigger] chunks[i]).len() > 0,
    ensures
        chunks.flatten().len() >= chunks[0].len() > 0,
{
}

/// The reads that finish a fragmented message: each chunk is appended and
/// tried, and the receive delivers right after the last one.
proof fn lemma_fragment_reads(
    m: ConnModel,
    dec: spec_fn(Seq<u8>) -> DecodeOutcome,
    e: Seq<u8>,
    chunks: Seq<Seq<u8>>,
    reads: Seq<ReadEvent>,
)
    requires
        !is_terminal(m.state),
        delimits(dec, e),
        m.buffer + chunks.flatten() == e,
        chunks.len() > 0,
        forall|i: int| 0 <= i < chunks.len() ==> (#[trigger] chunks[i]).len() > 0,
        reads.len() >= chunks.len(),
        forall|i: int| 0 <= i < chunks.len() ==> fed(#[trigger] reads[i], false, chunks[i]),
    ensures
        drive(m, dec, reads, false) == (
            ConnModel { buffer: Seq::empty(), state: ConnState::Established },
            Next::Deliver,
            chunks.len(),
        ),
    decreases chunks.len(),
{
    reveal_with_fuel(drive, 3);
    assert(fed(reads[0], false, chunks[0]));
    let b = m.buffer + chunks[0];
    let m2 = ConnModel { buffer: b, state: ConnState::Established };
    assert(chunks.flatten() == chunks[0] + chunks.drop_first().flatten());
    assert(e =~= b + chunks.drop_first().flatten());
    if chunks.len() == 1 {
        assert(chunks.drop_first().flatten() =~= Seq::<u8>::empty());
        assert(b =~= e + Seq::<u8>::empty());
        assert(dec(e + Seq::<u8>::empty()) == DecodeOutcome::Complete(e.len() as usize));
        assert(b.skip(e.len() as int) =~= Seq::<u8>::empty());
    } else {
        let tail = chunks.drop_first();
        assert forall|i: int| 0 <= i < tail.len() implies (#[trigger] tail[i]).len() > 0 by {
            assert(tail[i] == chunks[i + 1]);
        }
        lemma_flatten_nonempty(tail);
        assert(b.len() < e.len());
        assert(e.take(b.len() as int) =~= b);
        assert(dec(e.take(b.len() as int)) == DecodeOutcome::Incomplete);
        assert forall|i: int| 0 <= i < tail.len() implies fed(
            #[trigger] reads.drop_first()[i],
            false,
            tail[i],
        ) by {
            assert(reads.drop_first()[i] == reads[i + 1]);
            assert(fed(reads[i + 1], false, chunks[i + 1]));
        }
        lemma_fragment_reads(m2, dec, e, tail, reads.drop_first());
    }
}

/// Fragmentation: a message whose bytes, after a buffered proper prefix of
/// them, arrive split over `chunks.len()` non-empty chunks is delivered by
/// one receive after exactly that many reads, leaving an empty buffer.
pub proof fn lemma_fragmentation(
    m: ConnModel,
    dec: spec_fn(Seq<u8>) -> DecodeOutcome,
    e: Seq<u8>,
    chunks: Seq<Seq<u8>>,
    reads: Seq<ReadEvent>,
)
    requires
        !is_terminal(m.state),
        delimits(dec, e),
        m.buffer.len() < e.len(),
        m.buffer + chunks.flatten() == e,
        chunks.len() > 0,
        forall|i: int| 0 <= i < chunks.len() ==> (#[trigger] chunks[i]).len() > 0,
        reads.len() >= chunks.len(),
        forall|i: int| 0 <= i < chunks.len() ==> fed(#[trigger] reads[i], false, chunks[i]),
    ensures
        receive_model(m, dec, reads) == (
            ConnModel { buffer: Seq::empty(), state: ConnState::Established },
            Next::Deliver,
            chunks.len(),
        ),
{
    assert(e.take(m.buffer.len() as int) =~= m.buffer);
    assert(dec(e.take(m.buffer.len() as int)) == DecodeOutcome::Incomplete);
    lemma_fragment_reads(m, dec, e, chunks, reads);
}

/// Handshake-gated receive: while the channel negotiates for `k` reads and
/// produces no plaintext, the receive keeps reading; the message that the
/// next read yields is delivered after `k + 1` reads.
pub proof fn lemma_handshake_gated(
    m: ConnModel,
    dec: spec_fn(Seq<u8>) -> DecodeOutcome,
    e: Seq<u8>,
    k: nat,
    reads: Seq<ReadEvent>,
)
    requires
        !is_terminal(m.state),
        m.buffer == Seq::<u8>::empty(),
        delimits(dec, e),
        e.len() > 0,
        reads.len() > k,
        forall|i: int| 0 <= i < k ==> fed(#[trigger] reads[i], true, Seq::empty()),
        fed(reads[k as int], false, e),
    ensures
        receive_model(m, dec, reads) == (
            ConnModel { buffer: Seq::empty(), state: ConnState::Established },
            Next::Deliver,
            k + 1,
        ),
{
    assert(m.buffer =~= e.take(0));
    lemma_handshake_reads(m, dec, e, k, reads);
}

proof fn lemma_handshake_reads(
    m: ConnModel,
    dec: spec_fn(Seq<u8>) -> DecodeOutcome,
    e: Seq<u8>,
    k: nat,
    reads: Seq<ReadEvent>,
)
    requires
        !is_terminal(m.state),
        m.buffer == Seq::<u8>::empty(),
        delimits(dec, e),
        e.len() > 0,
        reads.len() > k,
        forall|i: int| 0 <= i < k ==> fed(#[trigger] reads[i], true, Seq::empty()),
        fed(reads[k as int], false, e),
    ensures
        drive(m, dec, reads, false) == (
            ConnModel { buffer: Seq::empty(), state: ConnState::Established },
            Next::Deliver,
            k + 1,
        ),
    decreases k,
{
    reveal_with_fuel(drive, 2);
    if k == 0 {
        let chunks = seq![e];
        chunks.lemma_flatten_one_element();
        assert(m.buffer + chunks.flatten() =~= e);
        lemma_fragment_reads(m, dec, e, chunks, reads);
    } else {
        assert(fed(reads[0], true, Seq::empty()));
        assert(m.buffer + Seq::<u8>::empty() =~= Seq::<u8>::empty());
        let m2 = ConnModel { buffer: Seq::empty(), state: ConnState::Handshaking };
        let rest = reads.drop_first();
        assert forall|i: int| 0 <= i < (k - 1) as nat implies fed(
            #[trigger] rest[i],
            true,
            Seq::empty(),
        ) by {
            assert(rest[i] == reads[i + 1]);
            assert(fed(reads[i + 1], true, Seq::empty()));
        }
        assert(rest[k - 1] == reads[k as int]);
        lemma_handshake_reads(m2, dec, e, (k - 1) as nat, rest);
    }
}

/// Closure detection: when no handshake is outstanding and the buffer holds
/// no whole message, an end-of-stream read closes the connection and the
/// receive fails with `ConnectionClosed`.
pub proof fn lemma_closure_detected(
    m: ConnModel,
    dec: spec_fn(Seq<u8>) -> DecodeOutcome,
    reads: Seq<ReadEvent>,
)
    requires
        m.state is Established,
        dec(m.buffer) == DecodeOutcome::Incomplete,
        reads.len() > 0,
        reads[0] is EndOfStream,
    ensures
        receive_model(m, dec, reads) == (
            with_state(m, ConnState::Closed),
            Next::Fail(ConnError::ConnectionClosed),
            1nat,
        ),
{
    reveal_with_fuel(drive, 2);
}

/// A failing run leaves the connection terminal, holding the error it
/// failed with.
proof fn lemma_failure_is_terminal(
    m: ConnModel,
    dec: spec_fn(Seq<u8>) -> DecodeOutcome,
    reads: Seq<ReadEvent>,
    decode_first: bool,
)
    ensures
        ({
            let r = drive(m, dec, reads, decode_first);
            r.1 matches Next::Fail(err) ==> is_terminal(r.0.state) && terminal_error(r.0.state) == err
        }),
    decreases reads.len(), (if decode_first {
        1nat
    } else {
        0nat
    }),
{
    if decode_first {
        lemma_failure_is_terminal(
            decode_step(m, dec(m.buffer)).0,
            dec,
            reads,
            false,
        );
    } else if reads.len() > 0 {
        let (m2, n2) = read_step(m, reads[0]);
        lemma_failure_is_terminal(m2, dec, reads.drop_first(), n2 is Decode);
    }
}

/// Failures stick: after a receive fails, a further receive fails with the
/// same error, reads nothing and leaves the connection, its buffer included,
/// as it was. This holds of a malformed buffer in particular.
pub proof fn lemma_failure_sticks(
    m: ConnModel,
    dec: spec_fn(Seq<u8>) -> DecodeOutcome,
    reads: Seq<ReadEvent>,
    later: Seq<ReadEvent>,
    err: ConnError,
)
    requires
        receive_model(m, dec, reads).1 == Next::Fail(err),
    ensures
        receive_model(receive_model(m, dec, reads).0, dec, later) == (
            receive_model(m, dec, reads).0,
            Next::Fail(err),
            0nat,
        ),
{
    lemma_failure_is_terminal(m, dec, reads, true);
}

/// A malformed buffer faults the connection without dropping a byte.
pub proof fn lemma_malformed_keeps_buffer(
    m: ConnModel,
    dec: spec_fn(Seq<u8>) -> DecodeOutcome,
    reads: Seq<ReadEvent>,
)
    requires
        !is_terminal(m.state),
        dec(m.buffer) == DecodeOutcome::Malformed,
    ensures
        receive_model(m, dec, reads) == (
            with_state(m, ConnState::Faulted(ConnError::Deserialization)),
            Next::Fail(ConnError::Deserialization),
            0nat,
        ),
{
}

/// The integer codec's judgement of a buffer, as a value.
pub open spec fn u32_decoder() -> spec_fn(Seq<u8>) -> DecodeOutcome {
    |b: Seq<u8>| u32_outcome(b)
}

/// The bytes of an integer are exactly one message of the integer codec.
pub proof fn lemma_u32_delimits(v: u32)
    ensures
        delimits(u32_decoder(), be_u32_bytes(v)),
{
    let e = be_u32_bytes(v);
    assert forall|t: Seq<u8>| #[trigger] u32_decoder()(e + t) == DecodeOutcome::Complete(4) by {
        lemma_u32_round_trip(v, t);
    }
    assert forall|k: int| 0 <= k < e.len() implies #[trigger] u32_decoder()(e.take(k))
        == DecodeOutcome::Incomplete by {}
}

/// Integers encoded back to back and delivered in one chunk to an idle,
/// established connection: the first receive takes that read and delivers
/// the first integer's bytes, the following receives take no read and
/// deliver the others in order, and each delivered message decodes to the
/// integer that was encoded.
pub proof fn lemma_u32_loopback(m: ConnModel, vs: Seq<u32>, reads: Seq<ReadEvent>)
    requires
        m.state is Established,
        m.buffer == Seq::<u8>::empty(),
        vs.len() > 0,
        reads.len() > 0,
        fed(reads[0], false, vs.map_values(|v: u32| be_u32_bytes(v)).flatten()),
    ensures
        ({
            let frames = vs.map_values(|v: u32| be_u32_bytes(v));
            let first = receive_model(m, u32_decoder(), reads);
            &&& first == (
                ConnModel { buffer: frames.drop_first().flatten(), state: ConnState::Established },
                Next::Deliver,
                1nat,
            )
            &&& receive_buffered(first.0, u32_decoder(), (vs.len() - 1) as nat) == (
                ConnModel { buffer: Seq::empty(), state: ConnState::Established },
                frames.drop_first(),
            )
            &&& forall|i: int| 0 <= i < vs.len() ==> be_u32_value(#[trigger] frames[i]) == vs[i]
        }),
{
    let frames = vs.map_values(|v: u32| be_u32_bytes(v));
    assert forall|i: int| 0 <= i < frames.len() implies delimits(u32_decoder(), #[trigger] frames[i])
        by {
        lemma_u32_delimits(vs[i]);
    }
    assert forall|i: int| 0 <= i < vs.len() implies be_u32_value(#[trigger] frames[i]) == vs[i] by {
        lemma_u32_round_trip(vs[i], Seq::empty());
        assert(be_u32_bytes(vs[i]) + Seq::<u8>::empty() =~= be_u32_bytes(vs[i]));
    }
    lemma_pipelining(m, u32_decoder(), frames, reads);
}

} // verus!
