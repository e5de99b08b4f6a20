//! Content hashes and per-chunk signatures.

use vstd::prelude::*;
use vstd::std_specs::cmp::PartialEqSpecImpl;
use vstd::slice::slice_subrange;
use crate::text::from_chars;

verus! {

/// The length of a content hash in bytes.
pub const HASH_LEN: usize = 32;

/// The BLAKE3 hash of a sequence of bytes, as the `blake3` crate computes it.
pub uninterp spec fn blake3_of(data: Seq<u8>) -> Seq<u8>;

/// `blake3::hash`, as its 32 bytes.
#[verifier::external_body]
fn digest(data: &[u8]) -> (r: [u8; 32])
    ensures
        r@ == blake3_of(data@),
{
    *blake3::hash(data).as_bytes()
}

/// The 256-bit hash of a file's or a chunk's content.
#[derive(Debug, Clone, Copy, Eq, Hash)]
pub struct ContentHash {
    bytes: [u8; 32],
}

impl View for ContentHash {
    type V = Seq<u8>;

    closed spec fn view(&self) -> Seq<u8> {
        self.bytes@
    }
}

/// The lower-case hexadecimal digit for a value below 16.
pub open spec fn hex_digit(n: u8) -> char {
    if n < 10 {
        (('0' as u8) + n) as char
    } else {
        (('a' as u8) + (n - 10)) as char
    }
}

/// The bytes written as lower-case hexadecimal digits, two for each byte,
/// the high half first.
pub open spec fn hex_of(bytes: Seq<u8>) -> Seq<char> {
    Seq::new(
        2 * bytes.len(),
        |i: int|
            if i % 2 == 0 {
                hex_digit(bytes[i / 2] / 16)
            } else {
                hex_digit(bytes[i / 2] % 16)
            },
    )
}

fn digit(n: u8) -> (c: char)
    requires
        n < 16,
    ensures
        c == hex_digit(n),
{
    if n < 10 {
        (48u8 + n) as char
    } else {
        (97u8 + (n - 10)) as char
    }
}

impl PartialEq for ContentHash {
    fn eq(&self, other: &Self) -> (r: bool) {
        let mut i: usize = 0;
        while i < 32
            invariant
                i <= 32,
                forall|j: int| 0 <= j < i ==> self.bytes[j] == other.bytes[j],
            decreases 32 - i,
        {
            if self.bytes[i] != other.bytes[i] {
                return false;
            }
            i += 1;
        }
        proof {
            assert(self.bytes@ =~= other.bytes@);
        }
        true
    }
}

impl PartialEqSpecImpl for ContentHash {
    open spec fn obeys_eq_spec() -> bool {
        true
    }

    open spec fn eq_spec(&self, other: &Self) -> bool {
        self@ == other@
    }
}

impl ContentHash {
    /// The hash of `data`.
    pub fn of(data: &[u8]) -> (r: Self)
        ensures
            r@ == blake3_of(data@),
    {
        ContentHash { bytes: digest(data) }
    }

    /// The hash with the given bytes.
    pub fn from_bytes(bytes: [u8; 32]) -> (r: Self)
        ensures
            r@ == bytes@,
    {
        ContentHash { bytes }
    }

    /// The bytes of the hash; there are always 32.
    pub fn as_bytes(&self) -> (r: &[u8; 32])
        ensures
            r@ == self@,
            self@.len() == HASH_LEN,
    {
        &self.bytes
    }

    /// The hash as 64 lower-case hexadecimal digits.
    pub fn to_hex(&self) -> (r: String)
        ensures
            r@ == hex_of(self@),
    {
        let mut out: Vec<char> = Vec::new();
        let mut i: usize = 0;
        while i < 32
            invariant
                i <= 32,
                out@ == hex_of(self@).take(2 * i),
            decreases 32 - i,
        {
            let b = self.bytes[i];
            out.push(digit(b / 16));
            out.push(digit(b % 16));
            proof {
                let whole = hex_of(self@);
                assert(whole.take(2 * i).push(whole[2 * i]).push(whole[2 * i + 1]) =~= whole.take(
                    2 * (i + 1),
                ));
            }
            i += 1;
        }
        proof {
            assert(hex_of(self@).take(64) =~= hex_of(self@));
        }
        from_chars(&out)
    }
}

/// The hash of one chunk of a file, with the chunk's place.
#[derive(Debug, Clone, Copy, PartialEq, Eq)]
pub struct ChunkSignature {
    pub index: u64,
    pub hash: ContentHash,
}

/// The hashes of a file's chunks, in order, with the chunk size they were
/// cut at.
#[derive(Debug)]
pub struct Signature {
    pub chunk_size: usize,
    pub chunks: Vec<ChunkSignature>,
}

/// The mathematical value of a [`Signature`]: the chunk size and, for each
/// chunk, its index and hash.
pub struct SignatureView {
    pub chunk_size: usize,
    pub chunks: Seq<(u64, Seq<u8>)>,
}

impl View for Signature {
    type V = SignatureView;

    open spec fn view(&self) -> SignatureView {
        SignatureView {
            chunk_size: self.chunk_size,
            chunks: self.chunks@.map_values(|c: ChunkSignature| (c.index, c.hash@)),
        }
    }
}

/// The number of chunks of `size` bytes that `total` bytes fill, the last
/// one possibly short.
pub open spec fn chunk_count(total: int, size: int) -> int
    recommends
        size > 0,
{
    (total + size - 1) / size
}

/// The `index`-th window of `size` bytes of `data`; the last one ends
/// where the data ends.
pub open spec fn window(data: Seq<u8>, index: int, size: int) -> Seq<u8> {
    data.subrange(
        index * size,
        if (index + 1) * size <= data.len() {
            (index + 1) * size
        } else {
            data.len() as int
        },
    )
}

/// The signature of a file with the given content. A file that fits one
/// chunk has a single entry, the hash of the whole file, and its own size
/// as the chunk size; a longer file has one entry for each window of
/// `chunk_size` bytes.
pub open spec fn signature_of(data: Seq<u8>, chunk_size: int) -> SignatureView {
    if data.len() <= chunk_size {
        SignatureView { chunk_size: data.len() as usize, chunks: seq![(0u64, blake3_of(data))] }
    } else {
        SignatureView {
            chunk_size: chunk_size as usize,
            chunks: Seq::new(
                chunk_count(data.len() as int, chunk_size) as nat,
                |i: int| (i as u64, blake3_of(window(data, i, chunk_size))),
            ),
        }
    }
}

/// After `done` whole chunks that do not reach the end, at least one more
/// chunk follows, and it is the last one exactly if it reaches the end.
pub proof fn lemma_chunk_step(total: int, size: int, done: int)
    requires
        size > 0,
        0 <= done,
        done * size < total,
    ensures
        done < chunk_count(total, size),
        (done + 1) * size >= total ==> done + 1 == chunk_count(total, size),
        (done + 1) * size < total ==> done + 1 < chunk_count(total, size),
{
    let count = chunk_count(total, size);
    assert(count * size >= total && (count - 1) * size < total) by (nonlinear_arith)
        requires
            size > 0,
            count == (total + size - 1) / size,
    ;
    assert(done < count) by (nonlinear_arith)
        requires
            size > 0,
            done * size < total,
            count * size >= total,
    ;
    if (done + 1) * size >= total {
        assert(done + 1 >= count) by (nonlinear_arith)
            requires
                size > 0,
                (done + 1) * size >= total,
                (count - 1) * size < total,
        ;
    } else {
        assert(done + 1 < count) by (nonlinear_arith)
            requires
                size > 0,
                (done + 1) * size < total,
                count * size >= total,
        ;
    }
}

impl Signature {
    /// Computes the signature of a file's content for the given chunk size.
    pub fn compute(data: &[u8], chunk_size: usize) -> (r: Signature)
        requires
            chunk_size > 0,
        ensures
            r@ == signature_of(data@, chunk_size as int),
    {
        let total = data.len();
        if total <= chunk_size {
            let mut chunks: Vec<ChunkSignature> = Vec::new();
            chunks.push(ChunkSignature { index: 0, hash: ContentHash::of(data) });
            let r = Signature { chunk_size: total, chunks };
            proof {
                assert(r@.chunks =~= seq![(0u64, blake3_of(data@))]);
            }
            return r;
        }
        let ghost wanted = signature_of(data@, chunk_size as int).chunks;
        let mut chunks: Vec<ChunkSignature> = Vec::new();
        let mut start: usize = 0;
        let mut index: u64 = 0;
        while start < total
            invariant
                chunk_size > 0,
                total == data@.len(),
                total > chunk_size,
                start <= total,
                start < total ==> start == index * chunk_size,
                start == total ==> index == chunk_count(total as int, chunk_size as int),
                index <= chunk_count(total as int, chunk_size as int),
                index <= start,
                wanted == signature_of(data@, chunk_size as int).chunks,
                chunks@.len() == index,
                forall|j: int|
                    0 <= j < index ==> (#[trigger] chunks@[j]).index == j && chunks@[j].hash@
                        == blake3_of(window(data@, j, chunk_size as int)),
            decreases total - start,
        {
            let end: usize = if total - start <= chunk_size {
                total
            } else {
                start + chunk_size
            };
            proof {
                lemma_chunk_step(total as int, chunk_size as int, index as int);
                assert((index + 1) * chunk_size == start + chunk_size) by (nonlinear_arith)
                    requires
                        start == index * chunk_size,
                ;
            }
            let piece = slice_subrange(data, start, end);
            chunks.push(ChunkSignature { index, hash: ContentHash::of(piece) });
            index += 1;
            start = end;
        }
        let r = Signature { chunk_size, chunks };
        proof {
            assert(r@.chunks =~= wanted);
        }
        r
    }

    /// A copy of the signature.
    pub fn duplicate(&self) -> (r: Signature)
        ensures
            r@ == self@,
    {
        let mut chunks: Vec<ChunkSignature> = Vec::new();
        let mut i: usize = 0;
        while i < self.chunks.len()
            invariant
                i <= self.chunks.len(),
                chunks@ == self.chunks@.take(i as int),
            decreases self.chunks.len() - i,
        {
            chunks.push(self.chunks[i]);
            proof {
                assert(self.chunks@.take(i as int).push(self.chunks@[i as int])
                    =~= self.chunks@.take(i + 1));
            }
            i += 1;
        }
        proof {
            assert(self.chunks@.take(self.chunks.len() as int) =~= self.chunks@);
        }
        Signature { chunk_size: self.chunk_size, chunks }
    }
}

} // verus!
