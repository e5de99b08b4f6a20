//! Sending a delta in pieces: the buffer that cuts a stream of bytes into
//! chunks, the messages of a streamed delta, and the check of a file that
//! a delta has rebuilt.

use vstd::prelude::*;
use crate::hashing::{blake3_of, hex_of, ContentHash};
use crate::rsync::{apply_patch, calculate_delta, rsync_delta, rsync_patch, RsyncError};
use crate::text::{same_text, view_all};

verus! {

/// The size of the chunks of a streamed delta, and the size below which a
/// file's delta is sent in one message: 64 KiB.
pub const CHUNK_SIZE: usize = 64 * 1024;

/// One message of a transfer by delta.
#[derive(Debug, PartialEq, Eq)]
pub enum StreamMessage {
    /// The whole delta of a small file.
    ApplyDelta { transfer_id: u64, relative_path: String, delta: Vec<u8>, expected_hash: String },
    /// The start of a delta sent in chunks.
    StartTransfer { transfer_id: u64, relative_path: String, total_size: u64 },
    /// One chunk of the delta.
    FileChunk { transfer_id: u64, chunk_index: u64, data: Vec<u8> },
    /// The end of the delta, with the hash of the file that it leads to.
    EndTransfer { transfer_id: u64, expected_hash: String },
}

/// The mathematical value of a [`StreamMessage`].
pub enum MessageView {
    ApplyDelta { transfer_id: u64, relative_path: Seq<char>, delta: Seq<u8>, expected_hash: Seq<char> },
    StartTransfer { transfer_id: u64, relative_path: Seq<char>, total_size: u64 },
    FileChunk { transfer_id: u64, chunk_index: u64, data: Seq<u8> },
    EndTransfer { transfer_id: u64, expected_hash: Seq<char> },
}

impl View for StreamMessage {
    type V = MessageView;

    open spec fn view(&self) -> MessageView {
        match self {
            StreamMessage::ApplyDelta { transfer_id, relative_path, delta, expected_hash } => {
                MessageView::ApplyDelta {
                    transfer_id: *transfer_id,
                    relative_path: relative_path@,
                    delta: delta@,
                    expected_hash: expected_hash@,
                }
            },
            StreamMessage::StartTransfer { transfer_id, relative_path, total_size } => {
                MessageView::StartTransfer {
                    transfer_id: *transfer_id,
                    relative_path: relative_path@,
                    total_size: *total_size,
                }
            },
            StreamMessage::FileChunk { transfer_id, chunk_index, data } => MessageView::FileChunk {
                transfer_id: *transfer_id,
                chunk_index: *chunk_index,
                data: data@,
            },
            StreamMessage::EndTransfer { transfer_id, expected_hash } => MessageView::EndTransfer {
                transfer_id: *transfer_id,
                expected_hash: expected_hash@,
            },
        }
    }
}

/// Why a streamed delta could not be made or applied.
#[derive(Debug, PartialEq, Eq)]
pub enum StreamError {
    /// The file to patch is not there.
    BasisNotFound,
    /// The delta could not be computed or applied.
    Rsync(RsyncError),
    /// The file that the delta made does not have the hash announced.
    IntegrityFailed { expected: String, computed: String },
}

/// The hash of a file's content as 64 hexadecimal digits.
pub fn compute_blake3_hash(content: &[u8]) -> (r: String)
    ensures
        r@ == hex_of(blake3_of(content@)),
{
    ContentHash::of(content).to_hex()
}

/// A buffer that takes bytes as they come and gives them back in chunks
/// of a fixed size, numbered from 0.
#[derive(Debug)]
pub struct ChunkedDeltaWriter {
    buffer: Vec<u8>,
    chunk_size: usize,
    transfer_id: u64,
    chunk_counter: u64,
}

/// The mathematical value of a [`ChunkedDeltaWriter`].
pub struct WriterView {
    /// The bytes that have come in and not gone out: fewer than a chunk.
    pub buffer: Seq<u8>,
    pub chunk_size: usize,
    pub transfer_id: u64,
    /// The number of chunks that have gone out.
    pub chunk_counter: u64,
}

impl View for ChunkedDeltaWriter {
    type V = WriterView;

    closed spec fn view(&self) -> WriterView {
        WriterView {
            buffer: self.buffer@,
            chunk_size: self.chunk_size,
            transfer_id: self.transfer_id,
            chunk_counter: self.chunk_counter,
        }
    }
}

/// The chunk messages for the first `count` chunks of `size` bytes of
/// `data`, numbered from `first`.
pub open spec fn chunk_messages(data: Seq<u8>, size: int, count: int, transfer_id: u64, first: u64) -> Seq<
    MessageView,
> {
    Seq::new(
        count as nat,
        |k: int|
            MessageView::FileChunk {
                transfer_id,
                chunk_index: (first + k) as u64,
                data: data.subrange(k * size, (k + 1) * size),
            },
    )
}

/// The number of whole chunks of `size` bytes in `length` bytes.
pub open spec fn full_chunks(length: nat, size: usize) -> int {
    (length as int) / (size as int)
}

/// The bytes of the chunk messages, one after another.
pub open spec fn chunk_bytes(messages: Seq<MessageView>) -> Seq<u8>
    decreases messages.len(),
{
    if messages.len() == 0 {
        Seq::<u8>::empty()
    } else {
        chunk_bytes(messages.drop_last()) + (match messages.last() {
            MessageView::FileChunk { data, .. } => data,
            _ => Seq::<u8>::empty(),
        })
    }
}

/// The chunks that go out hold the bytes that came in, in their order:
/// `count` chunks hold the first `count` times `size` bytes.
pub proof fn lemma_chunks_hold_the_stream(
    data: Seq<u8>,
    size: int,
    count: int,
    transfer_id: u64,
    first: u64,
)
    requires
        size > 0,
        0 <= count,
        count * size <= data.len(),
    ensures
        chunk_bytes(chunk_messages(data, size, count, transfer_id, first)) == data.take(
            count * size,
        ),
    decreases count,
{
    let messages = chunk_messages(data, size, count, transfer_id, first);
    if count == 0 {
        assert(count * size == 0) by (nonlinear_arith)
            requires
                count == 0,
        ;
        assert(data.take(0) =~= Seq::<u8>::empty());
    } else {
        assert((count - 1) * size <= data.len() && (count - 1) * size + size == count * size)
            by (nonlinear_arith)
            requires
                count * size <= data.len(),
                size > 0,
                count > 0,
        ;
        lemma_chunks_hold_the_stream(data, size, count - 1, transfer_id, first);
        assert(messages.drop_last() =~= chunk_messages(
            data,
            size,
            count - 1,
            transfer_id,
            first,
        ));
        assert(messages.len() == count);
        assert(messages.last() == MessageView::FileChunk {
            transfer_id,
            chunk_index: (first + (count - 1)) as u64,
            data: data.subrange((count - 1) * size, (count - 1 + 1) * size),
        });
        assert(chunk_bytes(messages) == chunk_bytes(messages.drop_last()) + data.subrange(
            (count - 1) * size,
            count * size,
        ));
        assert(data.take((count - 1) * size) + data.subrange((count - 1) * size, count * size)
            =~= data.take(count * size));
    }
}

impl ChunkedDeltaWriter {
    #[verifier::type_invariant]
    closed spec fn sound(self) -> bool {
        self.chunk_size > 0 && self.buffer@.len() < self.chunk_size
    }

    /// An empty buffer for chunks of `chunk_size` bytes.
    pub fn new(transfer_id: u64, chunk_size: usize) -> (r: Self)
        requires
            chunk_size > 0,
        ensures
            r@ == (WriterView {
                buffer: Seq::<u8>::empty(),
                chunk_size,
                transfer_id,
                chunk_counter: 0,
            }),
    {
        Self { buffer: Vec::new(), chunk_size, transfer_id, chunk_counter: 0 }
    }

    /// Takes bytes in and gives back the chunks that they fill. What does
    /// not fill a chunk stays in the buffer: no byte is lost, none comes
    /// twice.
    pub fn write(&mut self, buf: &[u8]) -> (r: Vec<StreamMessage>)
        requires
            old(self)@.chunk_counter + full_chunks(
                old(self)@.buffer.len() + buf@.len(),
                old(self)@.chunk_size,
            ) <= u64::MAX,
        ensures
            old(self)@.chunk_size > 0,
            view_all(r@) == chunk_messages(
                old(self)@.buffer + buf@,
                old(self)@.chunk_size as int,
                full_chunks(old(self)@.buffer.len() + buf@.len(), old(self)@.chunk_size),
                old(self)@.transfer_id,
                old(self)@.chunk_counter,
            ),
            final(self)@ == (WriterView {
                buffer: (old(self)@.buffer + buf@).skip(
                    full_chunks(old(self)@.buffer.len() + buf@.len(), old(self)@.chunk_size) * (
                    old(self)@.chunk_size as int),
                ),
                chunk_counter: (old(self)@.chunk_counter + full_chunks(
                    old(self)@.buffer.len() + buf@.len(),
                    old(self)@.chunk_size,
                )) as u64,
                ..old(self)@
            }),
            final(self)@.buffer.len() < old(self)@.chunk_size,
    {
        proof {
            use_type_invariant(&*self);
        }
        let size = self.chunk_size;
        let transfer_id = self.transfer_id;
        let first = self.chunk_counter;
        let ghost all = self.buffer@ + buf@;
        let ghost held = self.buffer@.len() as int;
        let ghost count = (all.len() as int) / (size as int);
        let mut buffer: Vec<u8> = Vec::new();
        std::mem::swap(&mut buffer, &mut self.buffer);
        let mut counter = first;
        let mut out: Vec<StreamMessage> = Vec::new();
        let mut written: usize = 0;
        proof {
            assert(buf@.take(0) =~= Seq::<u8>::empty());
            assert(buffer@ + Seq::<u8>::empty() =~= buffer@);
            assert(all.skip(0) =~= all);
            assert(view_all(out@) =~= chunk_messages(all, size as int, 0, transfer_id, first));
        }
        while written < buf.len()
            invariant
                size > 0,
                written <= buf.len(),
                all == old(self)@.buffer + buf@,
                held == old(self)@.buffer.len(),
                count == (all.len() as int) / (size as int),
                first + count <= u64::MAX,
                buffer@.len() < size,
                0 <= counter - first <= count,
                (counter - first) * size + buffer@.len() == old(self)@.buffer.len() + written,
                buffer@ == all.subrange(
                    (counter - first) * size,
                    old(self)@.buffer.len() + written,
                ),
                view_all(out@) == chunk_messages(
                    all,
                    size as int,
                    counter - first,
                    transfer_id,
                    first,
                ),
            decreases buf.len() - written,
        {
            let space_left = size - buffer.len();
            let rest = buf.len() - written;
            let to_copy = if space_left < rest {
                space_left
            } else {
                rest
            };
            let ghost start = buffer@;
            let mut j: usize = 0;
            while j < to_copy
                invariant
                    j <= to_copy,
                    written + to_copy <= buf.len(),
                    start.len() + to_copy <= size,
                    buffer@ == start + buf@.subrange(written as int, written + j),
                decreases to_copy - j,
            {
                buffer.push(buf[written + j]);
                proof {
                    assert(buf@.subrange(written as int, written + j).push(buf@[written + j])
                        =~= buf@.subrange(written as int, written + j + 1));
                }
                j += 1;
            }
            proof {
                let done = counter - first;
                assert(buffer@ =~= all.subrange(
                    done * size,
                    old(self)@.buffer.len() + written + to_copy,
                ));
            }
            written = written + to_copy;
            if buffer.len() == size {
                let ghost done = counter - first;
                proof {
                    let total = all.len() as int;
                    let taken = held + written;
                    assert((done + 1) * size <= total) by (nonlinear_arith)
                        requires
                            done * size + size == taken,
                            taken <= total,
                    ;
                    assert(done + 1 <= count) by (nonlinear_arith)
                        requires
                            (done + 1) * size <= total,
                            count == total / (size as int),
                            size > 0,
                    ;
                }
                let mut data: Vec<u8> = Vec::new();
                std::mem::swap(&mut data, &mut buffer);
                let ghost sofar = view_all(out@);
                let message = StreamMessage::FileChunk {
                    transfer_id,
                    chunk_index: counter,
                    data,
                };
                out.push(message);
                counter = counter + 1;
                proof {
                    assert((done + 1) * size == done * size + size) by (nonlinear_arith);
                    assert(view_all(out@) =~= sofar.push(message@));
                    assert(sofar.push(message@) =~= chunk_messages(
                        all,
                        size as int,
                        done + 1,
                        transfer_id,
                        first,
                    ));
                    assert(buffer@ =~= all.subrange(
                        (done + 1) * size,
                        old(self)@.buffer.len() + written,
                    ));
                }
            }
        }
        proof {
            let done = counter - first;
            let total = all.len() as int;
            let rest = buffer@.len() as int;
            assert(done * size + rest == total);
            assert(done == count) by (nonlinear_arith)
                requires
                    done * size + rest == total,
                    0 <= rest < size,
                    count == total / (size as int),
                    size > 0,
                    0 <= done,
            ;
            assert(buffer@ =~= all.skip(count * size));
        }
        self.buffer = buffer;
        self.chunk_counter = counter;
        out
    }

    /// Gives back what is left in the buffer as a last, short chunk; none
    /// where the buffer is empty.
    pub fn flush(&mut self) -> (r: Option<StreamMessage>)
        requires
            old(self)@.chunk_counter < u64::MAX,
        ensures
            match r {
                Some(message) => old(self)@.buffer.len() > 0 && message@
                    == (MessageView::FileChunk {
                    transfer_id: old(self)@.transfer_id,
                    chunk_index: old(self)@.chunk_counter,
                    data: old(self)@.buffer,
                }) && final(self)@ == (WriterView {
                    buffer: Seq::<u8>::empty(),
                    chunk_counter: (old(self)@.chunk_counter + 1) as u64,
                    ..old(self)@
                }),
                None => old(self)@.buffer.len() == 0 && final(self)@ == old(self)@,
            },
    {
        proof {
            use_type_invariant(&*self);
        }
        if self.buffer.len() == 0 {
            return None;
        }
        let mut data: Vec<u8> = Vec::new();
        std::mem::swap(&mut data, &mut self.buffer);
        let message = StreamMessage::FileChunk {
            transfer_id: self.transfer_id,
            chunk_index: self.chunk_counter,
            data,
        };
        self.chunk_counter = self.chunk_counter + 1;
        Some(message)
    }
}

/// The messages that carry a delta cut into chunks of `CHUNK_SIZE` bytes:
/// the full chunks, then the short rest if there is one.
pub open spec fn delta_chunks(delta: Seq<u8>, transfer_id: u64) -> Seq<MessageView> {
    let full = full_chunks(delta.len(), CHUNK_SIZE);
    let messages = chunk_messages(delta, CHUNK_SIZE as int, full, transfer_id, 0);
    if (delta.len() as int) % (CHUNK_SIZE as int) == 0 {
        messages
    } else {
        messages.push(
            MessageView::FileChunk {
                transfer_id,
                chunk_index: full as u64,
                data: delta.skip(full * (CHUNK_SIZE as int)),
            },
        )
    }
}

/// The messages that bring the receiver's copy of a file up to `content`:
/// one message with the whole delta for a file below `CHUNK_SIZE` bytes,
/// else a start, the delta in chunks and an end. Each way the hash of the
/// content goes along.
pub open spec fn streamed_delta(
    relative_path: Seq<char>,
    content: Seq<u8>,
    signature: Seq<u8>,
    transfer_id: u64,
) -> Result<Seq<MessageView>, RsyncError> {
    match rsync_delta(content, signature) {
        None => Err(RsyncError::Delta),
        Some(delta) => {
            let expected_hash = hex_of(blake3_of(content));
            if content.len() < CHUNK_SIZE {
                Ok(seq![MessageView::ApplyDelta { transfer_id, relative_path, delta, expected_hash }])
            } else {
                Ok(
                    seq![
                        MessageView::StartTransfer {
                            transfer_id,
                            relative_path,
                            total_size: content.len() as u64,
                        },
                    ] + delta_chunks(delta, transfer_id) + seq![
                        MessageView::EndTransfer { transfer_id, expected_hash },
                    ],
                )
            }
        },
    }
}

/// The messages that bring the receiver's copy of a file up to `content`,
/// given the signature of that copy.
pub fn generate_delta_streamed(
    relative_path: String,
    content: &[u8],
    signature_data: &[u8],
    transfer_id: u64,
) -> (r: Result<Vec<StreamMessage>, RsyncError>)
    ensures
        match r {
            Ok(messages) => streamed_delta(relative_path@, content@, signature_data@, transfer_id)
                == Ok::<Seq<MessageView>, RsyncError>(view_all(messages@)),
            Err(e) => streamed_delta(relative_path@, content@, signature_data@, transfer_id)
                == Err::<Seq<MessageView>, RsyncError>(e),
        },
{
    let delta = match calculate_delta(content, signature_data) {
        Ok(delta) => delta,
        Err(e) => {
            return Err(e);
        },
    };
    let expected_hash = compute_blake3_hash(content);
    let mut out: Vec<StreamMessage> = Vec::new();
    if content.len() < CHUNK_SIZE {
        let message = StreamMessage::ApplyDelta {
            transfer_id,
            relative_path,
            delta,
            expected_hash,
        };
        out.push(message);
        proof {
            assert(view_all(out@) =~= seq![message@]);
        }
        return Ok(out);
    }
    let start = StreamMessage::StartTransfer {
        transfer_id,
        relative_path,
        total_size: content.len() as u64,
    };
    out.push(start);
    let mut writer = ChunkedDeltaWriter::new(transfer_id, CHUNK_SIZE);
    let length = delta.len();
    let ghost full = full_chunks(delta@.len(), CHUNK_SIZE);
    proof {
        assert(Seq::<u8>::empty() + delta@ =~= delta@);
        let d = length as int;
        assert(0 <= full && full * 65536 <= d) by (nonlinear_arith)
            requires
                full == d / 65536,
                d >= 0,
        ;
    }
    let mut chunks = writer.write(delta.as_slice());
    let ghost head = view_all(out@);
    let ghost body = view_all(chunks@);
    let ghost rest = writer@.buffer;
    let ghost wanted = delta_chunks(delta@, transfer_id);
    out.append(&mut chunks);
    proof {
        assert(view_all(out@) =~= head + body);
        assert(body == chunk_messages(delta@, CHUNK_SIZE as int, full, transfer_id, 0));
        assert(rest == delta@.skip(full * (CHUNK_SIZE as int)));
        let d = delta@.len() as int;
        let cs = CHUNK_SIZE as int;
        vstd::arithmetic::div_mod::lemma_fundamental_div_mod(d, cs);
        assert(full == d / cs);
        assert(full * cs == cs * (d / cs)) by (nonlinear_arith)
            requires
                full == d / cs,
        ;
        assert(0 <= d % cs < cs);
        assert(0 <= full * cs <= d);
        assert(rest.len() == d - full * cs);
        assert(rest.len() == d % cs);
        assert(writer@.chunk_counter == full);
    }
    let ghost sofar = view_all(out@);
    match writer.flush() {
        Some(last) => {
            out.push(last);
            proof {
                assert(wanted == body.push(last@));
                assert(view_all(out@) =~= sofar.push(last@));
                assert(sofar.push(last@) =~= head + wanted);
            }
        },
        None => {
            proof {
                assert(wanted == body);
            }
        },
    }
    let ghost before_end = view_all(out@);
    let end = StreamMessage::EndTransfer { transfer_id, expected_hash };
    out.push(end);
    proof {
        assert(before_end == head + wanted);
        assert(head =~= seq![start@]);
        assert(view_all(out@) =~= before_end.push(end@));
        assert(before_end.push(end@) =~= seq![start@] + wanted + seq![end@]);
    }
    Ok(out)
}

/// What applying a delta to a local file leads to: the new content, where
/// the file is there, the delta applies and the outcome has the hash
/// announced.
pub open spec fn secure_patch(basis: Option<Seq<u8>>, delta: Seq<u8>, expected_hash: Seq<char>) -> Result<
    Seq<u8>,
    (),
> {
    match basis {
        None => Err(()),
        Some(old) => match rsync_patch(old, delta) {
            None => Err(()),
            Some(new) => if hex_of(blake3_of(new)) == expected_hash {
                Ok(new)
            } else {
                Err(())
            },
        },
    }
}

/// Applies a delta to the content of a local file and accepts the outcome
/// only if it has the hash announced. The caller writes what is accepted
/// in one step; on a failure the file stays as it is.
pub fn apply_delta_securely(basis: Option<&[u8]>, delta: &[u8], expected_hash: &str) -> (r: Result<
    Vec<u8>,
    StreamError,
>)
    ensures
        match r {
            Ok(content) => secure_patch(
                match basis {
                    Some(old) => Some(old@),
                    None => None,
                },
                delta@,
                expected_hash@,
            ) == Ok::<Seq<u8>, ()>(content@),
            Err(e) => secure_patch(
                match basis {
                    Some(old) => Some(old@),
                    None => None,
                },
                delta@,
                expected_hash@,
            ) is Err && (match e {
                StreamError::BasisNotFound => basis is None,
                StreamError::Rsync(_) => basis matches Some(old) && rsync_patch(old@, delta@)
                    is None,
                StreamError::IntegrityFailed { expected, computed } => expected@ == expected_hash@
                    && (basis matches Some(old) && rsync_patch(old@, delta@) matches Some(new)
                    && computed@ == hex_of(blake3_of(new)) && computed@ != expected_hash@),
            }),
        },
{
    let old = match basis {
        Some(old) => old,
        None => {
            return Err(StreamError::BasisNotFound);
        },
    };
    let new = match apply_patch(old, delta) {
        Ok(new) => new,
        Err(e) => {
            return Err(StreamError::Rsync(e));
        },
    };
    let computed = compute_blake3_hash(new.as_slice());
    if !same_text(computed.as_str(), expected_hash) {
        return Err(
            StreamError::IntegrityFailed { expected: expected_hash.to_owned(), computed },
        );
    }
    Ok(new)
}

} // verus!
