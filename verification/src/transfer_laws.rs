//! What a transfer in chunks achieves: written at their offsets, the
//! chunks make up the file, in whatever order they arrive.

use vstd::prelude::*;
use crate::folder::indices_below;
use crate::hashing::{chunk_count, window};

verus! {

/// The file after `data` has been written at `offset`; where the file was
/// shorter, the gap is filled with zeros.
pub open spec fn written_at(file: Seq<u8>, offset: int, data: Seq<u8>) -> Seq<u8> {
    Seq::new(
        if file.len() >= offset + data.len() {
            file.len()
        } else {
            (offset + data.len()) as nat
        },
        |j: int|
            if offset <= j < offset + data.len() {
                data[j - offset]
            } else if j < file.len() {
                file[j]
            } else {
                0u8
            },
    )
}

/// The temporary file after the chunks of `content` with the given
/// indices have been written in order, each at its index times the chunk
/// size.
pub open spec fn after_chunks(
    file: Seq<u8>,
    content: Seq<u8>,
    chunk_size: u64,
    indices: Seq<u64>,
) -> Seq<u8>
    decreases indices.len(),
{
    if indices.len() == 0 {
        file
    } else {
        written_at(
            after_chunks(file, content, chunk_size, indices.drop_last()),
            indices.last() * chunk_size,
            window(content, indices.last() as int, chunk_size as int),
        )
    }
}

/// Whether one of the first `m` indices is that of the chunk that holds
/// byte `j`.
pub open spec fn chunk_written(indices: Seq<u64>, m: int, chunk_size: u64, j: int) -> bool {
    exists|k: int| 0 <= k < m && #[trigger] indices[k] == j / (chunk_size as int)
}

proof fn lemma_chunk_of_byte(size: int, index: int, j: int)
    requires
        size > 0,
        0 <= index,
        0 <= j,
    ensures
        (j / size == index) <==> (index * size <= j < (index + 1) * size),
{
    vstd::arithmetic::div_mod::lemma_fundamental_div_mod(j, size);
    let q = j / size;
    let r = j % size;
    assert(j == size * q + r);
    if q == index {
        assert(index * size <= j < (index + 1) * size) by (nonlinear_arith)
            requires
                j == size * index + r,
                0 <= r < size,
        ;
    }
    if index * size <= j < (index + 1) * size {
        assert(q == index) by (nonlinear_arith)
            requires
                j == size * q + r,
                0 <= r < size,
                index * size <= j,
                j < (index + 1) * size,
                size > 0,
        ;
    }
}

proof fn lemma_written_so_far(
    file: Seq<u8>,
    content: Seq<u8>,
    chunk_size: u64,
    indices: Seq<u64>,
    m: int,
)
    requires
        chunk_size > 0,
        file.len() == content.len(),
        forall|k: int|
            0 <= k < indices.len() ==> #[trigger] indices[k] < chunk_count(
                content.len() as int,
                chunk_size as int,
            ),
        0 <= m <= indices.len(),
    ensures
        after_chunks(file, content, chunk_size, indices.take(m)).len() == content.len(),
        forall|j: int|
            0 <= j < content.len() && chunk_written(indices, m, chunk_size, j) ==> #[trigger] after_chunks(
                file,
                content,
                chunk_size,
                indices.take(m),
            )[j] == content[j],
    decreases m,
{
    let size = chunk_size as int;
    let total = content.len() as int;
    if m == 0 {
        assert(indices.take(0) =~= Seq::<u64>::empty());
    } else {
        lemma_written_so_far(file, content, chunk_size, indices, m - 1);
        let before = after_chunks(file, content, chunk_size, indices.take(m - 1));
        let now = after_chunks(file, content, chunk_size, indices.take(m));
        let index = indices[m - 1] as int;
        assert(indices.take(m).drop_last() =~= indices.take(m - 1));
        assert(indices.take(m).last() == indices[m - 1]);
        let data = window(content, index, size);
        let count = chunk_count(total, size);
        assert(index < count);
        assert(count * size >= total && (count - 1) * size < total) by (nonlinear_arith)
            requires
                size > 0,
                count == (total + size - 1) / size,
        ;
        assert(index * size <= (count - 1) * size) by (nonlinear_arith)
            requires
                index <= count - 1,
                size > 0,
        ;
        assert((index + 1) * size == index * size + size) by (nonlinear_arith);
        let offset = index * size;
        let end = if (index + 1) * size <= total {
            (index + 1) * size
        } else {
            total
        };
        assert(data == content.subrange(offset, end));
        assert(now == written_at(before, offset, data));
        assert(now.len() == total);
        assert forall|j: int|
            0 <= j < total && chunk_written(indices, m, chunk_size, j) implies #[trigger] now[j]
            == content[j] by {
            lemma_chunk_of_byte(size, index, j);
            if offset <= j < end {
                assert(now[j] == data[j - offset]);
            } else {
                let k = choose|k: int| 0 <= k < m && #[trigger] indices[k] == j / size;
                assert(j / size != index);
                assert(k < m - 1);
                assert(chunk_written(indices, m - 1, chunk_size, j));
                assert(now[j] == before[j]);
            }
        }
    }
}

/// Once every chunk of a file has been written to the temporary file,
/// in whatever order and however often, the temporary file holds the file.
pub proof fn lemma_chunks_rebuild_the_file(
    file: Seq<u8>,
    content: Seq<u8>,
    chunk_size: u64,
    indices: Seq<u64>,
)
    requires
        chunk_size > 0,
        file.len() == content.len(),
        content.len() <= u64::MAX,
        indices.to_set() == indices_below(
            chunk_count(content.len() as int, chunk_size as int) as u64,
        ),
    ensures
        after_chunks(file, content, chunk_size, indices) == content,
{
    let size = chunk_size as int;
    let total = content.len() as int;
    let count = chunk_count(total, size);
    assert(count * size >= total && (count - 1) * size < total && 0 <= count <= total)
        by (nonlinear_arith)
        requires
            size > 0,
            total >= 0,
            count == (total + size - 1) / size,
    ;
    assert forall|k: int| 0 <= k < indices.len() implies #[trigger] indices[k] < count by {
        assert(indices.to_set().contains(indices[k]));
    }
    let n = indices.len() as int;
    lemma_written_so_far(file, content, chunk_size, indices, n);
    assert(indices.take(n) =~= indices);
    let end = after_chunks(file, content, chunk_size, indices);
    assert forall|j: int| 0 <= j < total implies end[j] == content[j] by {
        let index = j / size;
        vstd::arithmetic::div_mod::lemma_fundamental_div_mod(j, size);
        assert(0 <= index < count) by (nonlinear_arith)
            requires
                j == size * index + j % size,
                0 <= j % size < size,
                0 <= j < total,
                total <= count * size,
                size > 0,
        ;
        assert(indices_below(count as u64).contains(index as u64));
        assert(indices.to_set().contains(index as u64));
        let k = choose|k: int| 0 <= k < indices.len() && indices[k] == index as u64;
        assert(indices[k] == j / size);
        assert(chunk_written(indices, n, chunk_size, j));
    }
    assert(end =~= content);
}

} // verus!
