//! Cutting the compressed file into the pieces that one QR code each holds,
//! and joining the pieces read back from the codes.
use vstd::prelude::*;
use std::collections::VecDeque;

verus! {

/// The most bytes that one QR code holds.
pub const QR_CHUNK_SIZE: usize = 2048;

/// The views of a list of byte vectors.
pub open spec fn byte_views(v: Seq<Vec<u8>>) -> Seq<Seq<u8>> {
    Seq::new(v.len(), |i: int| v[i]@)
}

/// `d` cut into consecutive pieces of `size` bytes, the last piece holding
/// what remains (between one and `size` bytes); no piece for empty data.
pub open spec fn chunks_of(d: Seq<u8>, size: nat) -> Seq<Seq<u8>>
    decreases d.len(),
{
    if d.len() == 0 || size == 0 {
        Seq::empty()
    } else if d.len() <= size {
        seq![d]
    } else {
        seq![d.take(size as int)] + chunks_of(d.skip(size as int), size)
    }
}

/// The number of bytes that the next piece takes from `d`.
pub open spec fn next_chunk_len(d: Seq<u8>, size: nat) -> nat {
    if d.len() <= size {
        d.len()
    } else {
        size
    }
}

/// Takes the next piece from the front of `data`: up to `QR_CHUNK_SIZE` bytes,
/// fewer only when `data` runs out.
pub fn next_chunk(data: &mut VecDeque<u8>) -> (chunk: Vec<u8>)
    ensures
        chunk@ == old(data)@.take(next_chunk_len(old(data)@, QR_CHUNK_SIZE as nat) as int),
        final(data)@ == old(data)@.skip(next_chunk_len(old(data)@, QR_CHUNK_SIZE as nat) as int),
{
    let ghost d0 = data@;
    let mut chunk: Vec<u8> = Vec::new();
    let mut i: usize = 0;
    while i < QR_CHUNK_SIZE
        invariant_except_break
            i <= QR_CHUNK_SIZE,
            i <= d0.len(),
            chunk@ == d0.take(i as int),
            data@ == d0.skip(i as int),
        ensures
            chunk@ == d0.take(next_chunk_len(d0, QR_CHUNK_SIZE as nat) as int),
            data@ == d0.skip(next_chunk_len(d0, QR_CHUNK_SIZE as nat) as int),
        decreases QR_CHUNK_SIZE - i,
    {
        match data.pop_front() {
            Some(b) => {
                chunk.push(b);
                assert(d0.skip(i as int)[0] == d0[i as int]);
                i = i + 1;
                assert(chunk@ =~= d0.take(i as int));
                assert(data@ =~= d0.skip(i as int));
            },
            None => {
                assert(i == d0.len());
                break;
            },
        }
    }
    chunk
}

/// The next piece and the rest of the data, as `chunks_of` cuts them.
proof fn lemma_chunks_of_step(d: Seq<u8>, size: nat)
    requires
        d.len() > 0,
        size > 0,
    ensures
        chunks_of(d, size) == seq![d.take(next_chunk_len(d, size) as int)] + chunks_of(
            d.skip(next_chunk_len(d, size) as int),
            size,
        ),
{
    if d.len() <= size {
        assert(d.take(d.len() as int) =~= d);
        assert(d.skip(d.len() as int) =~= Seq::<u8>::empty());
        assert(seq![d] + Seq::<Seq<u8>>::empty() =~= seq![d]);
    }
}

/// Cuts all of `data` into pieces of `QR_CHUNK_SIZE` bytes (the last one
/// shorter when the size does not divide evenly), leaving `data` empty.
pub fn get_data_from_file(data: &mut VecDeque<u8>) -> (chunks: Vec<Vec<u8>>)
    ensures
        byte_views(chunks@) == chunks_of(old(data)@, QR_CHUNK_SIZE as nat),
        final(data)@.len() == 0,
{
    let ghost d0 = data@;
    let mut chunks: Vec<Vec<u8>> = Vec::new();
    assert(byte_views(chunks@) + chunks_of(data@, QR_CHUNK_SIZE as nat) =~= chunks_of(d0, QR_CHUNK_SIZE as nat));
    while data.len() != 0
        invariant
            byte_views(chunks@) + chunks_of(data@, QR_CHUNK_SIZE as nat) == chunks_of(d0, QR_CHUNK_SIZE as nat),
        decreases data@.len(),
    {
        let ghost before = data@;
        let ghost old_views = byte_views(chunks@);
        proof {
            lemma_chunks_of_step(before, QR_CHUNK_SIZE as nat);
        }
        let chunk = next_chunk(data);
        chunks.push(chunk);
        assert(byte_views(chunks@) =~= old_views.push(chunk@));
        assert(byte_views(chunks@) + chunks_of(data@, QR_CHUNK_SIZE as nat) =~= old_views + chunks_of(
            before,
            QR_CHUNK_SIZE as nat,
        ));
    }
    assert(chunks_of(data@, QR_CHUNK_SIZE as nat) =~= Seq::<Seq<u8>>::empty());
    assert(byte_views(chunks@) + Seq::<Seq<u8>>::empty() =~= byte_views(chunks@));
    chunks
}

/// Joins the pieces in their order, as the reading side appends the bytes of
/// each code to the data.
pub fn concat_payloads(pieces: &Vec<Vec<u8>>) -> (data: Vec<u8>)
    ensures
        data@ == byte_views(pieces@).flatten(),
{
    let mut data: Vec<u8> = Vec::new();
    let mut i: usize = 0;
    let n = pieces.len();
    while i < n
        invariant
            n == pieces@.len(),
            i <= n,
            data@ == byte_views(pieces@).take(i as int).flatten(),
        decreases n - i,
    {
        let piece = &pieces[i];
        let ghost before = data@;
        let mut j: usize = 0;
        while j < piece.len()
            invariant
                j <= piece@.len(),
                data@ == before + piece@.take(j as int),
            decreases piece@.len() - j,
        {
            data.push(piece[j]);
            j = j + 1;
            assert(data@ =~= before + piece@.take(j as int));
        }
        assert(piece@.take(j as int) =~= piece@);
        proof {
            let views = byte_views(pieces@);
            assert(views.take(i + 1) =~= views.take(i as int).push(piece@));
            views.take(i as int).lemma_flatten_push(piece@);
        }
        i = i + 1;
    }
    assert(byte_views(pieces@).take(n as int) =~= byte_views(pieces@));
    data
}

/// Law: joining the pieces gives back the data that was cut.
pub proof fn lemma_chunks_join(d: Seq<u8>, size: nat)
    requires
        size > 0,
    ensures
        chunks_of(d, size).flatten() == d,
    decreases d.len(),
{
    if d.len() == 0 {
    } else if d.len() <= size {
        seq![d].lemma_flatten_singleton();
    } else {
        lemma_chunks_join(d.skip(size as int), size);
        vstd::seq_lib::lemma_flatten_concat(seq![d.take(size as int)], chunks_of(d.skip(size as int), size));
        seq![d.take(size as int)].lemma_flatten_singleton();
        assert(d.take(size as int) + d.skip(size as int) =~= d);
    }
}

/// Law: every piece holds between one and `size` bytes, and every piece but
/// the last holds exactly `size` bytes.
pub proof fn lemma_chunk_sizes(d: Seq<u8>, size: nat)
    requires
        size > 0,
    ensures
        forall|k: int| 0 <= k < chunks_of(d, size).len() ==> 0 < #[trigger] chunks_of(d, size)[k].len() <= size,
        forall|k: int| 0 <= k < chunks_of(d, size).len() - 1 ==> #[trigger] chunks_of(d, size)[k].len() == size,
    decreases d.len(),
{
    if d.len() > size {
        let rest = chunks_of(d.skip(size as int), size);
        lemma_chunk_sizes(d.skip(size as int), size);
        assert forall|k: int| 0 < k < chunks_of(d, size).len() implies #[trigger] chunks_of(d, size)[k] == rest[k - 1] by {}
    }
}

/// Law: the number of pieces is the size of the data divided by `size`,
/// rounded up.
pub proof fn lemma_chunk_count(d: Seq<u8>, size: nat)
    requires
        size > 0,
    ensures
        chunks_of(d, size).len() == (d.len() + size - 1) / (size as int),
    decreases d.len(),
{
    if d.len() == 0 {
        assert((size - 1) / (size as int) == 0) by (nonlinear_arith)
            requires size > 0;
    } else if d.len() <= size {
        assert((d.len() + size - 1) / (size as int) == 1) by (nonlinear_arith)
            requires size > 0, 0 < d.len() <= size;
    } else {
        lemma_chunk_count(d.skip(size as int), size);
        let m = d.len() - size;
        assert((m + size - 1) / (size as int) + 1 == (d.len() + size - 1) / (size as int)) by (nonlinear_arith)
            requires size > 0, m == d.len() - size, m > 0;
    }
}

} // verus!
