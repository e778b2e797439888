//! How a file is cut into chunks.
use crate::error::UploadError;
use vstd::prelude::*;

verus! {

/// Bytes in one mebibyte, the unit in which chunk sizes are given.
pub const MIB: usize = 1048576;

/// The chunks that a file of bytes `f` is cut into with chunk size `c`:
/// each chunk takes the next `c` bytes, the last one what is left.
pub open spec fn chunks_of(f: Seq<u8>, c: nat) -> Seq<Seq<u8>>
    decreases f.len(),
{
    if f.len() == 0 || c == 0 {
        Seq::empty()
    } else if f.len() <= c {
        seq![f]
    } else {
        seq![f.take(c as int)] + chunks_of(f.skip(c as int), c)
    }
}

/// Chunk size in bytes for a size given in mebibytes.
pub open spec fn chunk_bytes_spec(chunk_size_mib: nat) -> nat {
    chunk_size_mib * (MIB as nat)
}

/// Whether a chunk size given in mebibytes can be used: it is positive and
/// its size in bytes fits in a `usize`.
pub open spec fn valid_chunk_size(chunk_size_mib: nat) -> bool {
    0 < chunk_size_mib && chunk_bytes_spec(chunk_size_mib) <= usize::MAX
}

/// The chunk size in bytes for `chunk_size_mib` mebibytes, or
/// `ConfigurationError` where that size is zero or does not fit in memory.
pub fn chunk_size_in_bytes(chunk_size_mib: usize) -> (r: Result<usize, UploadError>)
    ensures
        valid_chunk_size(chunk_size_mib as nat) ==> r == Ok::<usize, UploadError>(
            (chunk_size_mib * MIB) as usize,
        ),
        !valid_chunk_size(chunk_size_mib as nat) ==> r == Err::<usize, UploadError>(
            UploadError::ConfigurationError,
        ),
{
    if chunk_size_mib == 0 || chunk_size_mib > usize::MAX / MIB {
        proof {
            if chunk_size_mib > 0 {
                assert(chunk_size_mib * MIB > usize::MAX) by (nonlinear_arith)
                    requires
                        chunk_size_mib > usize::MAX / MIB,
                        MIB == 1048576,
                ;
            }
        }
        Err(UploadError::ConfigurationError)
    } else {
        assert(chunk_size_mib * MIB <= usize::MAX) by (nonlinear_arith)
            requires
                chunk_size_mib <= usize::MAX / MIB,
                MIB == 1048576,
        ;
        Ok(chunk_size_mib * MIB)
    }
}

/// Joining the chunks of a file, in order, gives the file back.
pub proof fn lemma_chunks_round_trip(f: Seq<u8>, c: nat)
    requires
        c > 0,
    ensures
        chunks_of(f, c).flatten() == f,
    decreases f.len(),
{
    if f.len() == 0 {
        assert(f =~= Seq::<u8>::empty());
    } else if f.len() <= c {
        seq![f].lemma_flatten_one_element();
    } else {
        let rest = chunks_of(f.skip(c as int), c);
        lemma_chunks_round_trip(f.skip(c as int), c);
        let all = seq![f.take(c as int)] + rest;
        assert(all.drop_first() =~= rest);
        assert(all.first() == f.take(c as int));
        assert(f.take(c as int) + f.skip(c as int) =~= f);
    }
}

/// A non-empty file of `n` bytes gives `n / c` chunks rounded up; an empty
/// file gives none.
pub proof fn lemma_chunk_count(f: Seq<u8>, c: nat)
    requires
        c > 0,
    ensures
        chunks_of(f, c).len() == (f.len() + c - 1) / c as int,
        f.len() == 0 ==> chunks_of(f, c).len() == 0,
    decreases f.len(),
{
    let n = f.len() as int;
    let ci = c as int;
    if n == 0 {
        assert((ci - 1) / ci == 0) by (nonlinear_arith)
            requires
                ci > 0,
        ;
    } else if n <= ci {
        assert((n + ci - 1) / ci == 1) by (nonlinear_arith)
            requires
                0 < n <= ci,
        ;
    } else {
        lemma_chunk_count(f.skip(c as int), c);
        assert((n + ci - 1) / ci == 1 + (n - ci + ci - 1) / ci) by (nonlinear_arith)
            requires
                n > ci > 0,
        ;
    }
}

/// Each chunk is non-empty and at most `c` bytes; every chunk but the last
/// has exactly `c` bytes.
pub proof fn lemma_chunk_sizes(f: Seq<u8>, c: nat)
    requires
        c > 0,
    ensures
        forall|i: int|
            0 <= i < chunks_of(f, c).len() ==> 0 < #[trigger] chunks_of(f, c)[i].len() <= c,
        forall|i: int|
            0 <= i < chunks_of(f, c).len() - 1 ==> #[trigger] chunks_of(f, c)[i].len() == c,
    decreases f.len(),
{
    if f.len() > c {
        lemma_chunk_sizes(f.skip(c as int), c);
        let rest = chunks_of(f.skip(c as int), c);
        assert forall|i: int| 1 <= i < chunks_of(f, c).len() implies chunks_of(f, c)[i] == rest[i
            - 1] by {}
    }
}

/// A file whose size is a multiple of `c` is cut into chunks of exactly `c`
/// bytes; a non-empty file smaller than `c` is one chunk, the whole file.
pub proof fn lemma_chunk_size_boundary(f: Seq<u8>, c: nat)
    requires
        c > 0,
    ensures
        f.len() % c == 0 ==> forall|i: int|
            0 <= i < chunks_of(f, c).len() ==> #[trigger] chunks_of(f, c)[i].len() == c,
        0 < f.len() < c ==> chunks_of(f, c) == seq![f],
    decreases f.len(),
{
    if f.len() > c {
        lemma_chunk_size_boundary(f.skip(c as int), c);
        let n = f.len() as int;
        let ci = c as int;
        assert(n % ci == 0 ==> (n - ci) % ci == 0) by (nonlinear_arith)
            requires
                n > ci > 0,
        ;
        let rest = chunks_of(f.skip(c as int), c);
        assert forall|i: int| 1 <= i < chunks_of(f, c).len() implies chunks_of(f, c)[i] == rest[i
            - 1] by {}
    } else if 0 < f.len() < c {
        let n = f.len() as int;
        let ci = c as int;
        assert(n % ci == n) by (nonlinear_arith)
            requires
                0 < n < ci,
        ;
    }
}

} // verus!
