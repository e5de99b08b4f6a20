//! Deltas: instructions that rebuild a new version of a file from the old
//! one, and the buffer that cuts a stream of bytes into chunks.

use vstd::prelude::*;
use vstd::slice::slice_subrange;
use crate::hashing::{
    blake3_of, chunk_count, lemma_chunk_step, signature_of, window, ChunkSignature, ContentHash,
    Signature, SignatureView,
};
use crate::lookup::{key_position, lemma_key_position};
use crate::text::copy_bytes;

verus! {

/// One step of a delta: take bytes over from the old file, or take the
/// bytes given.
#[derive(Debug)]
pub enum DeltaInstruction {
    Copy { offset: u64, length: u64 },
    Literal(Vec<u8>),
}

/// A delta: instructions that, applied in order to the old file, write the
/// new one.
#[derive(Debug)]
pub struct Delta {
    pub instructions: Vec<DeltaInstruction>,
}

/// Why a delta could not be applied.
#[derive(Debug, PartialEq, Eq)]
pub enum DeltaError {
    /// The instruction at this place copies from beyond the old file's end.
    OutOfRange { instruction: usize },
    /// The file that came out does not have the hash that was announced.
    HashMismatch { expected: ContentHash, actual: ContentHash },
}

/// Whether an instruction stays inside an old file of `base_len` bytes.
pub open spec fn instruction_fits(step: DeltaInstruction, base_len: int) -> bool {
    match step {
        DeltaInstruction::Copy { offset, length } => offset + length <= base_len,
        DeltaInstruction::Literal(_) => true,
    }
}

/// The bytes that one instruction writes.
pub open spec fn instruction_output(step: DeltaInstruction, base: Seq<u8>) -> Seq<u8> {
    match step {
        DeltaInstruction::Copy { offset, length } => base.subrange(
            offset as int,
            offset + length,
        ),
        DeltaInstruction::Literal(bytes) => bytes@,
    }
}

/// The place of the first instruction that does not fit the old file, if
/// there is one.
pub open spec fn first_misfit(steps: Seq<DeltaInstruction>, base_len: int) -> Option<int>
    decreases steps.len(),
{
    if steps.len() == 0 {
        None
    } else {
        match first_misfit(steps.drop_last(), base_len) {
            Some(i) => Some(i),
            None => if instruction_fits(steps.last(), base_len) {
                None
            } else {
                Some(steps.len() - 1)
            },
        }
    }
}

/// The file that the instructions write from the old file `base`.
pub open spec fn patched(base: Seq<u8>, steps: Seq<DeltaInstruction>) -> Seq<u8>
    decreases steps.len(),
{
    if steps.len() == 0 {
        Seq::<u8>::empty()
    } else {
        patched(base, steps.drop_last()) + instruction_output(steps.last(), base)
    }
}

impl Delta {
    /// Applies the delta to the old file `base`. Fails at the first
    /// instruction that copies from beyond the end of `base`.
    pub fn apply(&self, base: &[u8]) -> (r: Result<Vec<u8>, DeltaError>)
        ensures
            match r {
                Ok(out) => first_misfit(self.instructions@, base@.len() as int) is None && out@
                    == patched(base@, self.instructions@),
                Err(e) => e matches DeltaError::OutOfRange { instruction } && first_misfit(
                    self.instructions@,
                    base@.len() as int,
                ) == Some(instruction as int),
            },
    {
        let mut out: Vec<u8> = Vec::new();
        let mut i: usize = 0;
        let ghost steps = self.instructions@;
        proof {
            assert(steps.take(0) =~= Seq::<DeltaInstruction>::empty());
        }
        while i < self.instructions.len()
            invariant
                i <= self.instructions.len(),
                steps == self.instructions@,
                first_misfit(steps.take(i as int), base@.len() as int) is None,
                out@ == patched(base@, steps.take(i as int)),
            decreases self.instructions.len() - i,
        {
            proof {
                assert(steps.take(i + 1).drop_last() =~= steps.take(i as int));
                assert(steps.take(i + 1).last() == steps[i as int]);
            }
            match &self.instructions[i] {
                DeltaInstruction::Copy { offset, length } => {
                    let fits = *offset <= base.len() as u64 && *length <= base.len() as u64
                        - *offset;
                    if !fits {
                        proof {
                            lemma_misfit_stays(steps, base@.len() as int, i + 1);
                        }
                        return Err(DeltaError::OutOfRange { instruction: i });
                    }
                    let start = *offset as usize;
                    let end = start + *length as usize;
                    let ghost before = out@;
                    let mut j: usize = start;
                    while j < end
                        invariant
                            start <= j <= end <= base@.len(),
                            out@ == before + base@.subrange(start as int, j as int),
                        decreases end - j,
                    {
                        out.push(base[j]);
                        proof {
                            assert(base@.subrange(start as int, j as int).push(base@[j as int])
                                =~= base@.subrange(start as int, j + 1));
                        }
                        j += 1;
                    }
                },
                DeltaInstruction::Literal(bytes) => {
                    let ghost before = out@;
                    let mut j: usize = 0;
                    while j < bytes.len()
                        invariant
                            j <= bytes.len(),
                            out@ == before + bytes@.take(j as int),
                        decreases bytes.len() - j,
                    {
                        out.push(bytes[j]);
                        proof {
                            assert(bytes@.take(j as int).push(bytes@[j as int]) =~= bytes@.take(
                                j + 1,
                            ));
                        }
                        j += 1;
                    }
                    proof {
                        assert(bytes@.take(bytes.len() as int) =~= bytes@);
                    }
                },
            }
            i += 1;
        }
        proof {
            assert(steps.take(self.instructions.len() as int) =~= steps);
        }
        Ok(out)
    }

    /// Applies the delta to the old file and accepts the outcome only if
    /// its hash is the one announced.
    pub fn apply_verified(&self, base: &[u8], expected: &ContentHash) -> (r: Result<
        Vec<u8>,
        DeltaError,
    >)
        ensures
            match r {
                Ok(out) => first_misfit(self.instructions@, base@.len() as int) is None && out@
                    == patched(base@, self.instructions@) && blake3_of(out@) == expected@,
                Err(DeltaError::OutOfRange { instruction }) => first_misfit(
                    self.instructions@,
                    base@.len() as int,
                ) == Some(instruction as int),
                Err(DeltaError::HashMismatch { expected: announced, actual }) => first_misfit(
                    self.instructions@,
                    base@.len() as int,
                ) is None && announced@ == expected@ && actual@ == blake3_of(
                    patched(base@, self.instructions@),
                ) && actual@ != expected@,
            },
    {
        match self.apply(base) {
            Err(e) => Err(e),
            Ok(out) => {
                let actual = ContentHash::of(out.as_slice());
                if actual == *expected {
                    Ok(out)
                } else {
                    Err(DeltaError::HashMismatch { expected: *expected, actual })
                }
            },
        }
    }
}

proof fn lemma_misfit_stays(steps: Seq<DeltaInstruction>, base_len: int, upto: int)
    requires
        0 < upto <= steps.len(),
        first_misfit(steps.take(upto), base_len) is Some,
    ensures
        first_misfit(steps, base_len) == first_misfit(steps.take(upto), base_len),
    decreases steps.len() - upto,
{
    if upto < steps.len() {
        assert(steps.take(upto + 1).drop_last() =~= steps.take(upto));
        lemma_misfit_stays(steps, base_len, upto + 1);
    } else {
        assert(steps.take(upto) =~= steps);
    }
}


/// The mathematical value of a [`DeltaInstruction`].
pub enum InstructionView {
    Copy { offset: u64, length: u64 },
    Literal(Seq<u8>),
}

impl View for DeltaInstruction {
    type V = InstructionView;

    open spec fn view(&self) -> InstructionView {
        match self {
            DeltaInstruction::Copy { offset, length } => InstructionView::Copy {
                offset: *offset,
                length: *length,
            },
            DeltaInstruction::Literal(bytes) => InstructionView::Literal(bytes@),
        }
    }
}

/// The hashes of the chunks of a signature, in order.
pub open spec fn chunk_hashes(signature: SignatureView) -> Seq<Seq<u8>> {
    signature.chunks.map_values(|c: (u64, Seq<u8>)| c.1)
}

/// The instruction for one window of the new file: a copy of the first
/// chunk of the old file that has the window's hash, or the window's bytes
/// where no chunk has it.
pub open spec fn window_instruction(new: Seq<u8>, signature: SignatureView, i: int) -> InstructionView {
    let bytes = window(new, i, signature.chunk_size as int);
    match key_position(chunk_hashes(signature), blake3_of(bytes)) {
        Some(j) => if signature.chunks[j].0 * signature.chunk_size <= u64::MAX {
            InstructionView::Copy {
                offset: (signature.chunks[j].0 * signature.chunk_size) as u64,
                length: bytes.len() as u64,
            }
        } else {
            InstructionView::Literal(bytes)
        },
        None => InstructionView::Literal(bytes),
    }
}

/// The delta that leads to the file `new` from a file with the given
/// signature: one instruction for each window of the signature's chunk
/// size. Against a signature with chunk size 0, the signature of an empty
/// file, all of `new` is taken as it is.
pub open spec fn delta_between(new: Seq<u8>, signature: SignatureView) -> Seq<InstructionView> {
    if signature.chunk_size == 0 {
        if new.len() == 0 {
            Seq::<InstructionView>::empty()
        } else {
            seq![InstructionView::Literal(new)]
        }
    } else {
        Seq::new(
            chunk_count(new.len() as int, signature.chunk_size as int) as nat,
            |i: int| window_instruction(new, signature, i),
        )
    }
}

fn find_chunk(chunks: &Vec<ChunkSignature>, hash: &ContentHash) -> (r: Option<usize>)
    ensures
        match r {
            Some(j) => j < chunks.len() && key_position(
                chunks@.map_values(|c: ChunkSignature| (c.index, c.hash@)).map_values(
                    |c: (u64, Seq<u8>)| c.1,
                ),
                hash@,
            ) == Some(j as int),
            None => key_position(
                chunks@.map_values(|c: ChunkSignature| (c.index, c.hash@)).map_values(
                    |c: (u64, Seq<u8>)| c.1,
                ),
                hash@,
            ) is None,
        },
{
    let ghost keys = chunks@.map_values(|c: ChunkSignature| (c.index, c.hash@)).map_values(
        |c: (u64, Seq<u8>)| c.1,
    );
    let mut j: usize = 0;
    while j < chunks.len()
        invariant
            j <= chunks.len(),
            keys == chunks@.map_values(|c: ChunkSignature| (c.index, c.hash@)).map_values(
                |c: (u64, Seq<u8>)| c.1,
            ),
            forall|k: int| 0 <= k < j ==> keys[k] != hash@,
        decreases chunks.len() - j,
    {
        if chunks[j].hash == *hash {
            proof {
                assert(keys[j as int] == hash@);
                lemma_key_position(keys, hash@, j as int);
            }
            return Some(j);
        }
        j += 1;
    }
    proof {
        lemma_key_position(keys, hash@, j as int);
    }
    None
}

impl Delta {
    /// The delta that leads to the file `new` from a file with the given
    /// signature. A window of `new` whose hash a chunk of the old file has
    /// is copied from there; any other window is sent as it is.
    pub fn between(new: &[u8], signature: &Signature) -> (r: Delta)
        ensures
            r.instructions@.map_values(|i: DeltaInstruction| i@) == delta_between(new@, signature@),
    {
        let mut instructions: Vec<DeltaInstruction> = Vec::new();
        let size = signature.chunk_size;
        let total = new.len();
        let ghost wanted = delta_between(new@, signature@);
        if size == 0 {
            if total > 0 {
                let step = DeltaInstruction::Literal(copy_bytes(new));
                instructions.push(step);
            }
            proof {
                assert(instructions@.map_values(|i: DeltaInstruction| i@) =~= wanted);
            }
            return Delta { instructions };
        }
        let mut start: usize = 0;
        let mut index: usize = 0;
        proof {
            if total == 0 {
                assert(chunk_count(0, size as int) == 0) by (nonlinear_arith)
                    requires
                        size > 0,
                ;
            }
        }
        while start < total
            invariant
                size > 0,
                size == signature@.chunk_size,
                total == new@.len(),
                start <= total,
                start < total ==> start == index * size,
                start == total ==> index == chunk_count(total as int, size as int),
                index <= chunk_count(total as int, size as int),
                index <= start,
                wanted == delta_between(new@, signature@),
                instructions@.len() == index,
                forall|k: int|
                    0 <= k < index ==> (#[trigger] instructions@[k])@ == window_instruction(
                        new@,
                        signature@,
                        k,
                    ),
            decreases total - start,
        {
            let end: usize = if total - start <= size {
                total
            } else {
                start + size
            };
            proof {
                lemma_chunk_step(total as int, size as int, index as int);
                assert((index + 1) * size == start + size) by (nonlinear_arith)
                    requires
                        start == index * size,
                ;
            }
            let piece = slice_subrange(new, start, end);
            let hash = ContentHash::of(piece);
            let step = match find_chunk(&signature.chunks, &hash) {
                Some(j) => match signature.chunks[j].index.checked_mul(size as u64) {
                    Some(offset) => DeltaInstruction::Copy { offset, length: (end - start) as u64 },
                    None => DeltaInstruction::Literal(copy_bytes(piece)),
                },
                None => DeltaInstruction::Literal(copy_bytes(piece)),
            };
            proof {
                assert(step@ == window_instruction(new@, signature@, index as int));
            }
            instructions.push(step);
            index += 1;
            start = end;
        }
        proof {
            assert(instructions@.map_values(|i: DeltaInstruction| i@) =~= wanted);
        }
        Delta { instructions }
    }
}


/// Whether the hash tells the windows of the new file from the chunks of
/// the old one: a window and a chunk with the same hash are the same
/// bytes.
pub open spec fn hashes_tell_apart(base: Seq<u8>, new: Seq<u8>, size: int) -> bool {
    forall|i: int, j: int|
        #![trigger window(new, i, size), window(base, j, size)]
        0 <= i && 0 <= j && blake3_of(window(new, i, size)) == blake3_of(window(base, j, size))
            ==> window(new, i, size) == window(base, j, size)
}

proof fn lemma_signature_chunk(base: Seq<u8>, chunk_size: int, j: int)
    requires
        0 < chunk_size <= usize::MAX,
        0 < base.len() <= usize::MAX,
        0 <= j < signature_of(base, chunk_size).chunks.len(),
    ensures
        signature_of(base, chunk_size).chunk_size > 0,
        signature_of(base, chunk_size).chunks[j] == (
            j as u64,
            blake3_of(window(base, j, signature_of(base, chunk_size).chunk_size as int)),
        ),
        j * signature_of(base, chunk_size).chunk_size < base.len(),
        j <= u64::MAX,
{
    let signature = signature_of(base, chunk_size);
    if base.len() <= chunk_size {
        assert(j == 0);
        assert(window(base, 0, base.len() as int) =~= base);
    } else {
        let count = chunk_count(base.len() as int, chunk_size);
        assert(count * chunk_size >= base.len() && (count - 1) * chunk_size < base.len())
            by (nonlinear_arith)
            requires
                chunk_size > 0,
                count == (base.len() + chunk_size - 1) / chunk_size,
        ;
        assert(j * chunk_size <= (count - 1) * chunk_size) by (nonlinear_arith)
            requires
                j <= count - 1,
                chunk_size > 0,
        ;
        assert(j <= j * chunk_size) by (nonlinear_arith)
            requires
                j >= 0,
                chunk_size > 0,
        ;
    }
}

proof fn lemma_rebuilt_so_far(
    base: Seq<u8>,
    new: Seq<u8>,
    chunk_size: int,
    steps: Seq<DeltaInstruction>,
    k: int,
)
    requires
        0 < chunk_size <= usize::MAX,
        0 < base.len() <= usize::MAX,
        new.len() <= usize::MAX,
        steps.map_values(|i: DeltaInstruction| i@) == delta_between(
            new,
            signature_of(base, chunk_size),
        ),
        hashes_tell_apart(base, new, signature_of(base, chunk_size).chunk_size as int),
        0 <= k <= steps.len(),
    ensures
        first_misfit(steps.take(k), base.len() as int) is None,
        patched(base, steps.take(k)) == new.take(
            if k * signature_of(base, chunk_size).chunk_size <= new.len() {
                k * signature_of(base, chunk_size).chunk_size
            } else {
                new.len() as int
            },
        ),
    decreases k,
{
    let signature = signature_of(base, chunk_size);
    let size = signature.chunk_size as int;
    let views = steps.map_values(|i: DeltaInstruction| i@);
    assert(size > 0);
    let count = chunk_count(new.len() as int, size);
    assert(steps.len() == views.len());
    assert(views.len() == count);
    if k == 0 {
        assert(steps.take(0) =~= Seq::<DeltaInstruction>::empty());
        assert(0 * size == 0) by (nonlinear_arith);
        assert(new.take(0) =~= Seq::<u8>::empty());
    } else {
        let i = k - 1;
        lemma_rebuilt_so_far(base, new, chunk_size, steps, i);
        assert(steps.take(k).drop_last() =~= steps.take(i));
        assert(steps.take(k).last() == steps[i]);
        assert(count * size >= new.len() && (count - 1) * size < new.len()) by (nonlinear_arith)
            requires
                size > 0,
                count == (new.len() + size - 1) / size,
        ;
        assert(i * size <= (count - 1) * size) by (nonlinear_arith)
            requires
                i <= count - 1,
                size > 0,
        ;
        assert((i + 1) * size == i * size + size) by (nonlinear_arith);
        let bytes = window(new, i, size);
        let end = if (i + 1) * size <= new.len() {
            (i + 1) * size
        } else {
            new.len() as int
        };
        assert(bytes == new.subrange(i * size, end));
        assert(views[i] == steps[i]@);
        assert(views[i] == window_instruction(new, signature, i));
        let wrote = instruction_output(steps[i], base);
        assert(instruction_fits(steps[i], base.len() as int) && wrote == bytes) by {
            match steps[i] {
                DeltaInstruction::Literal(literal) => {
                    assert(steps[i]@ == InstructionView::Literal(literal@));
                },
                DeltaInstruction::Copy { offset, length } => {
                    assert(steps[i]@ == InstructionView::Copy { offset, length });
                    let found = key_position(chunk_hashes(signature), blake3_of(bytes));
                    assert(found is Some);
                    let j = found->0;
                    crate::lookup::lemma_key_position_is_first(
                        chunk_hashes(signature),
                        blake3_of(bytes),
                    );
                    assert(0 <= j < signature.chunks.len());
                    lemma_signature_chunk(base, chunk_size, j);
                    assert(chunk_hashes(signature)[j] == signature.chunks[j].1);
                    let chunk = window(base, j, size);
                    assert(blake3_of(bytes) == blake3_of(chunk));
                    assert(bytes == chunk);
                    assert(signature.chunks[j].0 == j);
                    assert(offset == j * size);
                    assert(length == bytes.len());
                    let stop = if (j + 1) * size <= base.len() {
                        (j + 1) * size
                    } else {
                        base.len() as int
                    };
                    assert(chunk == base.subrange(j * size, stop));
                    assert((j + 1) * size == j * size + size) by (nonlinear_arith);
                    assert(chunk.len() == stop - j * size);
                    assert(base.subrange(offset as int, offset + length) =~= chunk);
                },
            }
        }
        assert(new.take(i * size) + new.subrange(i * size, end) =~= new.take(end));
    }
}

/// A delta made against the signature of an old file rebuilds the new
/// file from the old one, as long as the hash tells the windows of the
/// new file from the chunks of the old one.
pub proof fn lemma_delta_rebuilds(
    base: Seq<u8>,
    new: Seq<u8>,
    chunk_size: int,
    steps: Seq<DeltaInstruction>,
)
    requires
        0 < chunk_size <= usize::MAX,
        base.len() <= usize::MAX,
        new.len() <= usize::MAX,
        steps.map_values(|i: DeltaInstruction| i@) == delta_between(
            new,
            signature_of(base, chunk_size),
        ),
        hashes_tell_apart(base, new, signature_of(base, chunk_size).chunk_size as int),
    ensures
        first_misfit(steps, base.len() as int) is None,
        patched(base, steps) == new,
{
    let signature = signature_of(base, chunk_size);
    let views = steps.map_values(|i: DeltaInstruction| i@);
    assert(steps.len() == views.len());
    if base.len() == 0 {
        assert(signature.chunk_size == 0);
        if new.len() == 0 {
            assert(steps =~= Seq::<DeltaInstruction>::empty());
            assert(new =~= Seq::<u8>::empty());
        } else {
            assert(views.len() == 1);
            assert(steps.len() == 1);
            assert(steps.last() == steps[0]);
            assert(views[0] == steps[0]@);
            assert(steps.drop_last() =~= Seq::<DeltaInstruction>::empty());
            match steps[0] {
                DeltaInstruction::Literal(literal) => {
                    assert(literal@ == new);
                },
                DeltaInstruction::Copy { offset, length } => {
                    assert(steps[0]@ == InstructionView::Copy { offset, length });
                },
            }
            let none = Seq::<DeltaInstruction>::empty();
            assert(patched(base, none) =~= Seq::<u8>::empty());
            assert(first_misfit(none, base.len() as int) is None);
            assert(Seq::<u8>::empty() + new =~= new);
            assert(instruction_output(steps[0], base) == new);
            assert(patched(base, steps) == new);
            assert(first_misfit(steps, base.len() as int) is None);
        }
    } else {
        let size = signature.chunk_size as int;
        assert(size > 0);
        let count = chunk_count(new.len() as int, size);
        assert(views.len() == count);
        assert(steps.len() == count);
        lemma_rebuilt_so_far(base, new, chunk_size, steps, count);
        assert(steps.take(count) =~= steps);
        assert(count * size >= new.len()) by (nonlinear_arith)
            requires
                size > 0,
                count == (new.len() + size - 1) / size,
        ;
        assert(new.take(new.len() as int) =~= new);
        assert(patched(base, steps) == new);
    }
}

} // verus!
