use vstd::prelude::*;
use crate::FILE_SPLIT_SIZE;

verus! {

/// The bytes of a sequence of chunks, concatenated in chunk order.
pub open spec fn concat_chunks(s: Seq<Vec<u8>>) -> Seq<u8>
    decreases s.len(),
{
    if s.len() == 0 {
        Seq::empty()
    } else {
        concat_chunks(s.drop_last()) + s.last()@
    }
}

/// How many chunks a file of `len` bytes splits into at threshold `t`:
/// the ceiling of `len / t`.
pub open spec fn chunk_count(len: int, t: int) -> int {
    (len + t - 1) / t
}

proof fn lemma_concat_push(s: Seq<Vec<u8>>, v: Vec<u8>)
    ensures
        concat_chunks(s.push(v)) == concat_chunks(s) + v@,
{
    assert(s.push(v).drop_last() =~= s);
    assert(s.push(v).last() == v);
}

/// The multiplicative characterization of the ceiling: a chunk count `n`
/// with `(n-1)*t < len <= n*t` is exactly `ceil(len / t)`.
proof fn lemma_ceil_count(len: int, t: int, n: int)
    requires
        t >= 1,
        n >= 1,
        (n - 1) * t < len <= n * t,
    ensures
        n == chunk_count(len, t),
{
    assert(n == (len + t - 1) / t) by (nonlinear_arith)
        requires
            t >= 1,
            n >= 1,
            (n - 1) * t < len <= n * t,
    ;
}

/// What `split_bytes` guarantees of its last chunk, written with the
/// remainder: a file of `len` bytes in `n` chunks at threshold `t` has a
/// last chunk of `len % t` bytes, or of exactly `t` bytes when `t`
/// divides `len` evenly (never an empty trailing chunk).
pub proof fn lemma_last_chunk_is_remainder(len: int, t: int, n: int)
    requires
        t >= 1,
        n >= 1,
        (n - 1) * t < len <= n * t,
    ensures
        len % t == 0 ==> len - (n - 1) * t == t,
        len % t != 0 ==> len - (n - 1) * t == len % t,
{
    assert((len % t == 0 ==> len - (n - 1) * t == t) && (len % t != 0 ==> len - (n - 1) * t == len
        % t)) by (nonlinear_arith)
        requires
            t >= 1,
            n >= 1,
            (n - 1) * t < len <= n * t,
    ;
}

/// Split a file's bytes into ordered chunks of exactly `FILE_SPLIT_SIZE`
/// bytes each, except that the last chunk carries whatever remains (and is
/// never empty). Concatenating the chunks in order gives back the input;
/// an empty input yields no chunks at all, and an input whose length is an
/// exact multiple of the threshold gets no trailing empty chunk.
pub fn split_bytes(data: Vec<u8>) -> (chunks: Vec<Vec<u8>>)
    ensures
        concat_chunks(chunks@) == data@,
        chunks@.len() == chunk_count(data@.len() as int, FILE_SPLIT_SIZE as int),
        data@.len() == 0 ==> chunks@.len() == 0,
        data@.len() > 0 ==> (chunks@.len() - 1) * (FILE_SPLIT_SIZE as int) < data@.len()
            <= chunks@.len() * (FILE_SPLIT_SIZE as int),
        forall|i: int| 0 <= i < chunks@.len() ==> (#[trigger] chunks@[i]@.len()) > 0,
        forall|i: int|
            0 <= i < chunks@.len() - 1 ==> (#[trigger] chunks@[i]@.len()) == FILE_SPLIT_SIZE,
        chunks@.len() > 0 ==> chunks@.last()@.len() == data@.len() - (chunks@.len() - 1) * (
        FILE_SPLIT_SIZE as int),
{
    let ghost input = data@;
    let mut rest = data;
    let mut chunks: Vec<Vec<u8>> = Vec::new();

    proof {
        let k = chunks@.len() as int;
        assert(k * (FILE_SPLIT_SIZE as int) == 0) by (nonlinear_arith)
            requires
                k == 0,
        ;
    }

    while rest.len() > FILE_SPLIT_SIZE
        invariant
            concat_chunks(chunks@) + rest@ == input,
            forall|i: int|
                0 <= i < chunks@.len() ==> (#[trigger] chunks@[i]@.len()) == FILE_SPLIT_SIZE,
            chunks@.len() * (FILE_SPLIT_SIZE as int) + rest@.len() == input.len(),
        decreases rest.len(),
    {
        let tail = rest.split_off(FILE_SPLIT_SIZE);
        let ghost old_chunks = chunks@;
        let ghost front = rest;
        chunks.push(rest);
        rest = tail;
        proof {
            lemma_concat_push(old_chunks, front);
            assert(concat_chunks(chunks@) + rest@ =~= concat_chunks(old_chunks) + (front@
                + rest@));
            assert((old_chunks.len() + 1) * (FILE_SPLIT_SIZE as int) == old_chunks.len() * (
            FILE_SPLIT_SIZE as int) + FILE_SPLIT_SIZE) by (nonlinear_arith);
        }
    }

    let ghost full = chunks@.len();
    if rest.len() > 0 {
        let ghost old_chunks = chunks@;
        let ghost last = rest;
        chunks.push(rest);
        proof {
            lemma_concat_push(old_chunks, last);
            assert(concat_chunks(chunks@) =~= concat_chunks(old_chunks) + last@);
        }
    } else {
        assert(concat_chunks(chunks@) + rest@ =~= concat_chunks(chunks@));
    }

    proof {
        let t = FILE_SPLIT_SIZE as int;
        let n = chunks@.len() as int;
        if input.len() > 0 {
            assert(n >= 1);
            if n == full {
                // the remainder was empty: the last loop chunk is full
                assert(full * t == input.len());
                assert((full - 1) * t == full * t - t) by (nonlinear_arith);
                assert(chunks@[n - 1]@.len() == FILE_SPLIT_SIZE);
                assert(chunks@.last()@.len() == input.len() - (n - 1) * t);
            } else {
                // a short (or exactly threshold-sized) remainder was pushed
                assert(n == full + 1);
                assert((full + 1) * t == full * t + t) by (nonlinear_arith);
                assert(chunks@.last()@.len() == input.len() - full * t);
            }
            assert((n - 1) * t < input.len() <= n * t);
            lemma_ceil_count(input.len() as int, t, n);
        } else {
            assert(n == 0);
            vstd::arithmetic::div_mod::lemma_basic_div(t - 1, t);
            assert(chunk_count(0, t) == 0);
        }
    }

    chunks
}

} // verus!
