use vstd::prelude::*;
use vstd::utf8::{decode_utf8, valid_utf8};
use crate::types::{LogMessage, LogMessageKind};

verus! {

/// The runtime channel that a chunk of output was read from.
#[derive(Debug, Clone, Copy, PartialEq, Eq, Structural)]
pub enum Origin {
    StdOut,
    StdErr,
    StdIn,
    Console,
}

/// What one read from a container's combined output stream gave.
#[derive(Debug, Clone)]
pub enum ReadOutcome {
    /// The stream closed normally.
    Ended,
    /// Reading failed; the stream is not read again.
    Failed,
    /// A chunk of bytes from one channel.
    Chunk(Origin, Vec<u8>),
}

/// What the reader does with one read.
#[derive(Debug, Clone)]
pub enum ReaderStep {
    /// The stream is over: the reader ends.
    Finish,
    /// The chunk is not valid UTF-8: it is dropped and reading goes on.
    Discard,
    /// The message to enqueue; reading goes on.
    Emit(LogMessage),
}

/// A reader step with the message's strings as character sequences.
pub enum StepModel {
    Finish,
    Discard,
    Emit(Seq<char>, LogMessageKind, Seq<char>),
}

pub open spec fn step_model(r: ReaderStep) -> StepModel {
    match r {
        ReaderStep::Finish => StepModel::Finish,
        ReaderStep::Discard => StepModel::Discard,
        ReaderStep::Emit(m) => StepModel::Emit(m.backend_id@, m.kind, m.text@),
    }
}

/// Standard error maps to `Stderr`; every other channel is folded into `Stdout`.
pub open spec fn kind_of(o: Origin) -> LogMessageKind {
    match o {
        Origin::StdErr => LogMessageKind::Stderr,
        _ => LogMessageKind::Stdout,
    }
}

/// The step that a reader for `backend` takes on one read.
pub open spec fn step_spec(backend: Seq<char>, o: ReadOutcome) -> StepModel {
    match o {
        ReadOutcome::Ended => StepModel::Finish,
        ReadOutcome::Failed => StepModel::Finish,
        ReadOutcome::Chunk(origin, bytes) => if valid_utf8(bytes@) {
            StepModel::Emit(backend, kind_of(origin), decode_utf8(bytes@))
        } else {
            StepModel::Discard
        },
    }
}

/// Relies on `std::str::from_utf8`: it succeeds exactly on valid UTF-8, and then yields the
/// characters that the bytes encode.
#[verifier::external_body]
fn decode(bytes: &[u8]) -> (r: Option<String>)
    ensures
        r is Some <==> valid_utf8(bytes@),
        r matches Some(s) ==> s@ == decode_utf8(bytes@),
{
    std::str::from_utf8(bytes).ok().map(|s| s.to_owned())
}

/// The message kind for a chunk read from channel `o`.
pub fn kind_for(o: Origin) -> (k: LogMessageKind)
    ensures
        k == kind_of(o),
{
    match o {
        Origin::StdErr => LogMessageKind::Stderr,
        _ => LogMessageKind::Stdout,
    }
}

/// Decides what a reader for `backend_id` does with one read from its stream.
pub fn reader_step(backend_id: &String, outcome: ReadOutcome) -> (r: ReaderStep)
    ensures
        step_model(r) == step_spec(backend_id@, outcome),
{
    match outcome {
        ReadOutcome::Ended => ReaderStep::Finish,
        ReadOutcome::Failed => ReaderStep::Finish,
        ReadOutcome::Chunk(origin, bytes) => match decode(bytes.as_slice()) {
            None => ReaderStep::Discard,
            Some(text) => ReaderStep::Emit(
                LogMessage::new(backend_id.clone(), kind_for(origin), text),
            ),
        },
    }
}

/// The messages, as (backend, kind, text), that a reader for `backend` enqueues over a run of
/// reads, up to the first read that ends it.
pub open spec fn reader_output(backend: Seq<char>, reads: Seq<ReadOutcome>) -> Seq<
    (Seq<char>, LogMessageKind, Seq<char>),
>
    decreases reads.len(),
{
    if reads.len() == 0 {
        Seq::empty()
    } else {
        match step_spec(backend, reads[0]) {
            StepModel::Finish => Seq::empty(),
            StepModel::Discard => reader_output(backend, reads.drop_first()),
            StepModel::Emit(b, k, t) => seq![(b, k, t)] + reader_output(
                backend,
                reads.drop_first(),
            ),
        }
    }
}

/// Whether a reader is still running after a run of reads: none of them ended it.
pub open spec fn still_reading(backend: Seq<char>, reads: Seq<ReadOutcome>) -> bool {
    forall|i: int| 0 <= i < reads.len() ==> !(step_spec(backend, #[trigger] reads[i]) is Finish)
}

/// Reads that leave the reader running can be split off: the output over them followed by
/// `rest` is their own output followed by that of `rest`.
pub proof fn lemma_output_append(backend: Seq<char>, reads: Seq<ReadOutcome>, rest: Seq<ReadOutcome>)
    requires
        still_reading(backend, reads),
    ensures
        reader_output(backend, reads + rest) == reader_output(backend, reads) + reader_output(
            backend,
            rest,
        ),
    decreases reads.len(),
{
    if reads.len() == 0 {
        assert(reads + rest =~= rest);
    } else {
        let tail = reads.drop_first();
        assert((reads + rest).drop_first() =~= tail + rest);
        assert((reads + rest)[0] == reads[0]);
        assert(!(step_spec(backend, reads[0]) is Finish));
        assert forall|i: int| 0 <= i < tail.len() implies !(step_spec(
            backend,
            #[trigger] tail[i],
        ) is Finish) by {
            assert(tail[i] == reads[i + 1]);
        }
        lemma_output_append(backend, tail, rest);
        match step_spec(backend, reads[0]) {
            StepModel::Emit(b, k, t) => {
                assert(seq![(b, k, t)] + (reader_output(backend, tail) + reader_output(
                    backend,
                    rest,
                )) =~= seq![(b, k, t)] + reader_output(backend, tail) + reader_output(
                    backend,
                    rest,
                ));
            },
            _ => {},
        }
    }
}

/// A chunk that is not valid UTF-8, read after any reads that left the reader running, adds
/// no message and does not end the reader: the output is that of the reads around it.
pub proof fn lemma_invalid_chunk_dropped(
    backend: Seq<char>,
    before: Seq<ReadOutcome>,
    origin: Origin,
    bad: Vec<u8>,
    after: Seq<ReadOutcome>,
)
    requires
        still_reading(backend, before),
        !valid_utf8(bad@),
    ensures
        still_reading(backend, before.push(ReadOutcome::Chunk(origin, bad))),
        reader_output(backend, before.push(ReadOutcome::Chunk(origin, bad)) + after)
            == reader_output(backend, before) + reader_output(backend, after),
{
    let bad_read = ReadOutcome::Chunk(origin, bad);
    let with_bad = before.push(bad_read);
    assert forall|i: int| 0 <= i < with_bad.len() implies !(step_spec(
        backend,
        #[trigger] with_bad[i],
    ) is Finish) by {
        if i < before.len() {
            assert(with_bad[i] == before[i]);
        }
    }
    lemma_output_append(backend, with_bad, after);
    assert(with_bad =~= before + seq![bad_read]);
    lemma_output_append(backend, before, seq![bad_read]);
    assert(seq![bad_read].drop_first() =~= Seq::<ReadOutcome>::empty());
    assert(reader_output(backend, seq![bad_read]) == reader_output(
        backend,
        Seq::<ReadOutcome>::empty(),
    ));
    assert(reader_output(backend, before) + Seq::empty() =~= reader_output(backend, before));
}

/// Two valid chunks around one that is not valid UTF-8 give the messages of the two valid
/// chunks, in order, and the reader keeps running.
pub proof fn lemma_valid_chunks_around_invalid(
    backend: Seq<char>,
    o1: Origin,
    first: Vec<u8>,
    o2: Origin,
    bad: Vec<u8>,
    o3: Origin,
    last: Vec<u8>,
)
    requires
        valid_utf8(first@),
        !valid_utf8(bad@),
        valid_utf8(last@),
    ensures
        ({
            let reads = seq![
                ReadOutcome::Chunk(o1, first),
                ReadOutcome::Chunk(o2, bad),
                ReadOutcome::Chunk(o3, last),
            ];
            &&& still_reading(backend, reads)
            &&& reader_output(backend, reads) == seq![
                (backend, kind_of(o1), decode_utf8(first@)),
                (backend, kind_of(o3), decode_utf8(last@)),
            ]
        }),
{
    let r1 = ReadOutcome::Chunk(o1, first);
    let r2 = ReadOutcome::Chunk(o2, bad);
    let r3 = ReadOutcome::Chunk(o3, last);
    let reads = seq![r1, r2, r3];
    assert(reads.drop_first() =~= seq![r2, r3]);
    assert(seq![r2, r3].drop_first() =~= seq![r3]);
    assert(seq![r3].drop_first() =~= Seq::<ReadOutcome>::empty());
    let m1 = (backend, kind_of(o1), decode_utf8(first@));
    let m3 = (backend, kind_of(o3), decode_utf8(last@));
    assert(reads[0] == r1);
    assert(seq![r2, r3][0] == r2);
    assert(seq![r3][0] == r3);
    assert(reader_output(backend, Seq::<ReadOutcome>::empty()) == Seq::<
        (Seq<char>, LogMessageKind, Seq<char>),
    >::empty());
    assert(reader_output(backend, seq![r3]) =~= seq![m3]);
    assert(reader_output(backend, seq![r2, r3]) =~= seq![m3]);
    assert(reader_output(backend, reads) =~= seq![m1] + seq![m3]);
    assert forall|i: int| 0 <= i < reads.len() implies !(step_spec(
        backend,
        #[trigger] reads[i],
    ) is Finish) by {
        if i == 1 {
            assert(reads[1] == r2);
        } else if i == 2 {
            assert(reads[2] == r3);
        }
    }
    assert(reader_output(backend, reads) =~= seq![
        (backend, kind_of(o1), decode_utf8(first@)),
        (backend, kind_of(o3), decode_utf8(last@)),
    ]);
}

} // verus!
