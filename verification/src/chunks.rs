//! Cutting a byte stream into fixed-size chunks and reassembling it.
//!
//! Chunks are full except possibly the last; chunk `i` starts at byte offset
//! `i * csize`, which is what makes index-based resumption sound.

use vstd::prelude::*;

verus! {

/// The chunk size used for file transfer.
pub const CHUNK_SIZE: usize = 64 * 1024;

/// The chunks of `data` when cut every `csize` bytes: all full except
/// possibly the last, and empty data yields no chunks.
pub open spec fn chunks_of(data: Seq<u8>, csize: nat) -> Seq<Seq<u8>>
    recommends
        csize > 0,
    decreases data.len(),
{
    if csize == 0 || data.len() == 0 {
        Seq::empty()
    } else if data.len() <= csize {
        seq![data]
    } else {
        seq![data.take(csize as int)] + chunks_of(data.skip(csize as int), csize)
    }
}

/// The concatenation of a sequence of chunks.
pub open spec fn concat_chunks(cs: Seq<Seq<u8>>) -> Seq<u8>
    decreases cs.len(),
{
    if cs.len() == 0 {
        Seq::empty()
    } else {
        cs[0] + concat_chunks(cs.drop_first())
    }
}

/// Reassembling the chunks of a stream in order reproduces the stream
/// exactly.
pub proof fn lemma_chunks_reassemble(data: Seq<u8>, csize: nat)
    requires
        csize > 0,
    ensures
        concat_chunks(chunks_of(data, csize)) == data,
    decreases data.len(),
{
    if data.len() == 0 {
        assert(concat_chunks(chunks_of(data, csize)) =~= data);
    } else if data.len() <= csize {
        assert(chunks_of(data, csize) == seq![data]);
        assert(seq![data].drop_first() =~= Seq::<Seq<u8>>::empty());
        assert(seq![data][0] == data);
        assert(concat_chunks(Seq::<Seq<u8>>::empty()) =~= Seq::<u8>::empty());
        assert(concat_chunks(seq![data]) == data + concat_chunks(Seq::<Seq<u8>>::empty()));
        assert(concat_chunks(chunks_of(data, csize)) =~= data);
    } else {
        let head = data.take(csize as int);
        let tail = data.skip(csize as int);
        lemma_chunks_reassemble(tail, csize);
        let cs = chunks_of(data, csize);
        assert(cs == seq![head] + chunks_of(tail, csize));
        assert(cs[0] == head);
        assert(cs.drop_first() =~= chunks_of(tail, csize));
        assert(concat_chunks(cs) == head + concat_chunks(chunks_of(tail, csize)));
        assert(head + tail =~= data);
    }
}

/// Appending one chunk extends the concatenation by its bytes.
pub proof fn lemma_concat_chunks_push(cs: Seq<Seq<u8>>, c: Seq<u8>)
    ensures
        concat_chunks(cs.push(c)) == concat_chunks(cs) + c,
    decreases cs.len(),
{
    if cs.len() == 0 {
        assert(cs.push(c)[0] == c);
        assert(cs.push(c).drop_first() =~= Seq::<Seq<u8>>::empty());
        assert(concat_chunks(cs.push(c)) == c + concat_chunks(Seq::<Seq<u8>>::empty()));
        assert(concat_chunks(cs) =~= Seq::<u8>::empty());
        assert(concat_chunks(cs.push(c)) =~= concat_chunks(cs) + c);
    } else {
        assert(cs.push(c).drop_first() =~= cs.drop_first().push(c));
        lemma_concat_chunks_push(cs.drop_first(), c);
        assert(cs.push(c)[0] == cs[0]);
        assert(concat_chunks(cs.push(c)) == cs[0] + concat_chunks(cs.drop_first().push(c)));
        assert(concat_chunks(cs.push(c)) =~= concat_chunks(cs) + c);
    }
}

/// How many chunks a stream yields: enough to cover every byte, with no
/// chunk to spare.
pub proof fn lemma_chunks_of_len(data: Seq<u8>, csize: nat)
    requires
        csize > 0,
    ensures
        data.len() == 0 ==> chunks_of(data, csize).len() == 0,
        data.len() > 0 ==> csize * (chunks_of(data, csize).len() - 1) < data.len() <= csize
            * chunks_of(data, csize).len(),
    decreases data.len(),
{
    if data.len() == 0 {
    } else if data.len() <= csize {
        assert(chunks_of(data, csize).len() == 1);
    } else {
        let tail = data.skip(csize as int);
        lemma_chunks_of_len(tail, csize);
        let lt = chunks_of(tail, csize).len();
        assert(chunks_of(data, csize).len() == 1 + lt);
        assert(csize * ((1 + lt) - 1) == csize + csize * (lt - 1)) by (nonlinear_arith);
        assert(csize * (1 + lt) == csize + csize * lt) by (nonlinear_arith);
    }
}

/// The chunks from index `k` on are exactly the chunks of the stream that
/// starts at byte offset `k * csize`: a resume at chunk `k` retransmits what
/// a fresh cut at that offset yields.
pub proof fn lemma_chunks_skip(data: Seq<u8>, csize: nat, k: nat)
    requires
        csize > 0,
        k * csize <= data.len(),
    ensures
        chunks_of(data, csize).skip(k as int) == chunks_of(data.skip((k * csize) as int), csize),
    decreases k,
{
    if k == 0 {
        assert(k * csize == 0) by (nonlinear_arith)
            requires
                k == 0,
        ;
        assert(data.skip(0) =~= data);
        assert(chunks_of(data, csize).skip(0) =~= chunks_of(data, csize));
    } else {
        assert(csize <= k * csize) by (nonlinear_arith)
            requires
                k >= 1,
                csize > 0,
        ;
        if data.len() <= csize {
            assert(k * csize <= csize);
            assert(k == 1) by (nonlinear_arith)
                requires
                    k >= 1,
                    csize > 0,
                    k * csize <= csize,
            ;
            assert(k * csize == csize) by (nonlinear_arith)
                requires
                    k == 1,
            ;
            assert(chunks_of(data, csize) == seq![data]);
            assert(chunks_of(data, csize).skip(1) =~= Seq::<Seq<u8>>::empty());
            assert(data.skip(csize as int).len() == 0);
            assert(chunks_of(data.skip(csize as int), csize) =~= Seq::<Seq<u8>>::empty());
        } else {
            let tail = data.skip(csize as int);
            assert((k - 1) * csize == k * csize - csize) by (nonlinear_arith);
            lemma_chunks_skip(tail, csize, (k - 1) as nat);
            let cs = chunks_of(data, csize);
            assert(cs == seq![data.take(csize as int)] + chunks_of(tail, csize));
            lemma_chunks_of_len(tail, csize);
            let lt = chunks_of(tail, csize).len();
            assert(tail.len() <= csize * lt);
            assert((k - 1) * csize <= tail.len());
            assert(k - 1 <= lt) by (nonlinear_arith)
                requires
                    csize > 0,
                    (k - 1) * csize <= csize * lt,
            ;
            assert(cs.skip(k as int) =~= chunks_of(tail, csize).skip(k as int - 1));
            assert(tail.skip(((k - 1) * csize) as int) =~= data.skip((k * csize) as int));
            assert(chunks_of(tail.skip(((k - 1) * csize) as int), csize) == chunks_of(
                data.skip((k * csize) as int),
                csize,
            ));
        }
    }
}

/// The bytes already written up to chunk `k`, followed by the reassembly of
/// the chunks cut from byte offset `k * csize`, give back the source exactly:
/// a resumed transfer ends byte-identical to the source.
pub proof fn lemma_resume_reassembles(data: Seq<u8>, csize: nat, k: nat)
    requires
        csize > 0,
        k * csize <= data.len(),
    ensures
        data.take((k * csize) as int) + concat_chunks(
            chunks_of(data.skip((k * csize) as int), csize),
        ) == data,
{
    lemma_chunks_reassemble(data.skip((k * csize) as int), csize);
    assert(data.take((k * csize) as int) + data.skip((k * csize) as int) =~= data);
}

/// Cuts `data` into chunks of at most `csize` bytes.
pub fn split_chunks(data: &Vec<u8>, csize: usize) -> (r: Vec<Vec<u8>>)
    requires
        csize > 0,
    ensures
        r@.map_values(|v: Vec<u8>| v@) == chunks_of(data@, csize as nat),
{
    let len = data.len();
    let mut out: Vec<Vec<u8>> = Vec::new();
    let mut off: usize = 0;
    proof {
        assert(data@.skip(0) =~= data@);
        assert(out@.map_values(|v: Vec<u8>| v@) =~= Seq::<Seq<u8>>::empty());
        assert(Seq::<Seq<u8>>::empty() + chunks_of(data@, csize as nat) =~= chunks_of(
            data@,
            csize as nat,
        ));
    }
    while off < len
        invariant
            len == data@.len(),
            csize > 0,
            off <= len,
            chunks_of(data@, csize as nat) == out@.map_values(|v: Vec<u8>| v@) + chunks_of(
                data@.skip(off as int),
                csize as nat,
            ),
        decreases len - off,
    {
        let next = if len - off < csize {
            len - off
        } else {
            csize
        };
        let mut chunk: Vec<u8> = Vec::new();
        let mut i: usize = 0;
        while i < next
            invariant
                len == data@.len(),
                off + next <= len,
                i <= next,
                chunk@ == data@.subrange(off as int, off as int + i as int),
            decreases next - i,
        {
            chunk.push(data[off + i]);
            proof {
                assert(data@.subrange(off as int, off as int + i as int + 1) =~= data@.subrange(
                    off as int,
                    off as int + i as int,
                ).push(data@[off as int + i as int]));
            }
            i += 1;
        }
        proof {
            let rest = data@.skip(off as int);
            assert(rest.len() == len - off);
            if rest.len() <= csize {
                assert(chunk@ =~= rest);
                assert(chunks_of(rest, csize as nat) == seq![rest]);
                assert(data@.skip(off as int + next as int).len() == 0);
                assert(chunks_of(data@.skip(off as int + next as int), csize as nat)
                    =~= Seq::<Seq<u8>>::empty());
                assert(seq![rest] =~= seq![chunk@] + chunks_of(
                    data@.skip(off as int + next as int),
                    csize as nat,
                ));
            } else {
                assert(chunk@ =~= rest.take(csize as int));
                assert(rest.skip(csize as int) =~= data@.skip(off as int + next as int));
            }
            assert(out@.push(chunk).map_values(|v: Vec<u8>| v@) =~= out@.map_values(
                |v: Vec<u8>| v@,
            ).push(chunk@));
            assert((out@.map_values(|v: Vec<u8>| v@).push(chunk@)) + chunks_of(
                data@.skip(off as int + next as int),
                csize as nat,
            ) =~= out@.map_values(|v: Vec<u8>| v@) + (seq![chunk@] + chunks_of(
                data@.skip(off as int + next as int),
                csize as nat,
            )));
        }
        out.push(chunk);
        off = off + next;
    }
    proof {
        assert(data@.skip(len as int).len() == 0);
        assert(chunks_of(data@.skip(len as int), csize as nat) =~= Seq::<Seq<u8>>::empty());
        assert(out@.map_values(|v: Vec<u8>| v@) + Seq::<Seq<u8>>::empty() =~= out@.map_values(
            |v: Vec<u8>| v@,
        ));
    }
    out
}

/// Concatenates chunks back into one byte vector.
pub fn join_chunks(cs: &Vec<Vec<u8>>) -> (r: Vec<u8>)
    ensures
        r@ == concat_chunks(cs@.map_values(|v: Vec<u8>| v@)),
{
    let n = cs.len();
    let mut out: Vec<u8> = Vec::new();
    let mut i: usize = 0;
    while i < n
        invariant
            n == cs@.len(),
            i <= n,
            out@ == concat_chunks(cs@.map_values(|v: Vec<u8>| v@).take(i as int)),
        decreases n - i,
    {
        let m = cs[i].len();
        let mut j: usize = 0;
        let ghost before = out@;
        while j < m
            invariant
                n == cs@.len(),
                i < n,
                m == cs@[i as int]@.len(),
                j <= m,
                out@ == before + cs@[i as int]@.subrange(0, j as int),
            decreases m - j,
        {
            out.push(cs[i][j]);
            proof {
                assert(cs@[i as int]@.subrange(0, j as int + 1) =~= cs@[i as int]@.subrange(
                    0,
                    j as int,
                ).push(cs@[i as int]@[j as int]));
            }
            j += 1;
        }
        proof {
            let mapped = cs@.map_values(|v: Vec<u8>| v@);
            assert(cs@[i as int]@.subrange(0, m as int) =~= mapped[i as int]);
            assert(mapped.take(i as int + 1) =~= mapped.take(i as int).push(mapped[i as int]));
            lemma_concat_chunks_push(mapped.take(i as int), mapped[i as int]);
        }
        i += 1;
    }
    proof {
        assert(cs@.map_values(|v: Vec<u8>| v@).take(n as int) =~= cs@.map_values(
            |v: Vec<u8>| v@,
        ));
    }
    out
}

} // verus!
