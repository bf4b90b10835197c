//! Compressing the file before it is cut into QR codes, and decompressing
//! the bytes read back from the codes, with the xz format of the `xz` crate.
use vstd::prelude::*;
use std::collections::VecDeque;
use crate::chunking::{byte_views, chunks_of, lemma_chunks_join, QR_CHUNK_SIZE};

verus! {

/// The compression preset that the file is compressed with.
pub const COMPRESSION_LEVEL: u32 = 6;

/// What `xz::read::XzDecoder` reads from the stream `data`: `None` when the
/// stream is not a valid xz stream.
pub uninterp spec fn xz_decompressed(data: Seq<u8>) -> Option<Seq<u8>>;

/// Compresses `data` with `xz::write::XzEncoder` at preset `level` into a new
/// vector: `XzEncoder::new`, `write_all` of the data, then `finish`.
///
/// Claimed: the compression succeeds, and its result is a non-empty xz
/// stream that `xz::read::XzDecoder` reads back as the data. Writing into a
/// `Vec` cannot fail, `write` unwraps the stream's own result, and at presets
/// 0 to 9 the stream reports an error from `finish` only when liblzma cannot
/// allocate memory, a machine limit that this contract leaves out as it
/// leaves out any other failed allocation. The round trip is the crate's own
/// documented example; an xz stream always begins with its stream header.
///
/// Left unsaid: which bytes the stream holds. They may differ between
/// versions and builds of liblzma, so they are not named.
#[verifier::external_body]
fn xz_encode(data: &[u8], level: u32) -> (res: Result<Vec<u8>, String>)
    requires
        level <= 9,
    ensures
        res is Ok,
        res matches Ok(v) ==> v@.len() > 0 && xz_decompressed(v@) == Some(data@),
{
    let mut encoder = xz::write::XzEncoder::new(Vec::new(), level);
    match std::io::Write::write_all(&mut encoder, data) {
        Ok(()) => encoder.finish().map_err(|e| format!("{}", e)),
        Err(e) => Err(format!("{}", e)),
    }
}

/// Decompresses the xz stream `data` with `xz::read::XzDecoder::new` and
/// `read_to_end`.
///
/// Claimed: the result is the one named `xz_decompressed` of the stream.
#[verifier::external_body]
fn xz_decode(data: &[u8]) -> (res: Option<Vec<u8>>)
    ensures
        res matches Some(v) ==> xz_decompressed(data@) == Some(v@),
        res is None ==> xz_decompressed(data@) is None,
{
    let mut out: Vec<u8> = Vec::new();
    match std::io::Read::read_to_end(&mut xz::read::XzDecoder::new(data), &mut out) {
        Ok(_) => Some(out),
        Err(_) => None,
    }
}

/// Compresses the contents of the file at preset `COMPRESSION_LEVEL` and
/// appends the compressed bytes to `compressed`: a non-empty xz stream that
/// decompresses to the file.
pub fn compress_file(data: &[u8], compressed: &mut VecDeque<u8>) -> (res: Result<(), String>)
    ensures
        res is Ok,
        final(compressed)@.len() > old(compressed)@.len(),
        final(compressed)@.take(old(compressed)@.len() as int) == old(compressed)@,
        xz_decompressed(final(compressed)@.skip(old(compressed)@.len() as int)) == Some(data@),
{
    match xz_encode(data, COMPRESSION_LEVEL) {
        Ok(bytes) => {
            let ghost before = compressed@;
            let mut i: usize = 0;
            while i < bytes.len()
                invariant
                    i <= bytes@.len(),
                    compressed@ == before + bytes@.take(i as int),
                decreases bytes@.len() - i,
            {
                compressed.push_back(bytes[i]);
                i = i + 1;
                assert(compressed@ =~= before + bytes@.take(i as int));
            }
            assert(bytes@.take(i as int) =~= bytes@);
            assert(compressed@.take(before.len() as int) =~= before);
            assert(compressed@.skip(before.len() as int) =~= bytes@);
            Ok(())
        },
        Err(m) => {
            let mut e = String::from_str("Error compressing file: ");
            e.append(m.as_str());
            Err(e)
        },
    }
}

/// The self-check of a compression: the number of bytes that the compressed
/// data decompresses to, `None` when it does not decompress. A file is
/// expected to give back at least one byte.
pub fn decompressed_len(compressed: &VecDeque<u8>) -> (res: Option<usize>)
    ensures
        match res {
            Some(n) => xz_decompressed(compressed@) matches Some(d) && d.len() == n,
            None => xz_decompressed(compressed@) is None,
        },
{
    let mut bytes: Vec<u8> = Vec::new();
    let mut i: usize = 0;
    while i < compressed.len()
        invariant
            i <= compressed@.len(),
            bytes@ == compressed@.take(i as int),
        decreases compressed@.len() - i,
    {
        bytes.push(compressed[i]);
        i = i + 1;
        assert(bytes@ =~= compressed@.take(i as int));
    }
    assert(bytes@ =~= compressed@);
    match decompress_data(bytes.as_slice()) {
        Some(v) => Some(v.len()),
        None => None,
    }
}

/// Decompresses the bytes read back from the codes.
pub fn decompress_data(data: &[u8]) -> (res: Option<Vec<u8>>)
    ensures
        match res {
            Some(v) => xz_decompressed(data@) == Some(v@),
            None => xz_decompressed(data@) is None,
        },
{
    xz_decode(data)
}

/// Joins the payloads of the codes, in the order of the images, and
/// decompresses them: the contents of the file that was encoded.
///
/// When the payloads are the pieces that a compressed file was cut into, the
/// result is what that compressed file decompresses to.
pub fn restore_file_data(payloads: &Vec<Vec<u8>>) -> (res: Option<Vec<u8>>)
    ensures
        match res {
            Some(v) => xz_decompressed(byte_views(payloads@).flatten()) == Some(v@),
            None => xz_decompressed(byte_views(payloads@).flatten()) is None,
        },
        forall|c: Seq<u8>|
            byte_views(payloads@) == #[trigger] chunks_of(c, QR_CHUNK_SIZE as nat) ==> match res {
                Some(v) => xz_decompressed(c) == Some(v@),
                None => xz_decompressed(c) is None,
            },
{
    let data = crate::chunking::concat_payloads(payloads);
    let res = decompress_data(data.as_slice());
    assert forall|c: Seq<u8>| byte_views(payloads@) == #[trigger] chunks_of(c, QR_CHUNK_SIZE as nat) implies match res {
        Some(v) => xz_decompressed(c) == Some(v@),
        None => xz_decompressed(c) is None,
    } by {
        lemma_chunks_join(c, QR_CHUNK_SIZE as nat);
    }
    res
}

} // verus!
