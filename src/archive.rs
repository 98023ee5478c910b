use crate::header::{spec_header_bytes, FileHeader};
use flate2::read::GzDecoder;
use flate2::write::GzEncoder;
use flate2::Compression;
use std::io::{Read, Write};
use vstd::prelude::*;
use vstd::seq_lib::lemma_flatten_concat;

verus! {

/// The gzip stream that flate2's encoder writes, at its default level and
/// header, for the plaintext `plain`.
pub uninterp spec fn gzip_of(plain: Seq<u8>) -> Seq<u8>;

/// The plaintext that flate2's gzip decoder reads out of `data`, or `None`
/// where it reports an error.
pub uninterp spec fn gunzip_of(data: Seq<u8>) -> Option<Seq<u8>>;

/// Relies on flate2::write::GzEncoder (default compression, default header):
/// the stream depends on the plaintext alone, and flate2's decoder reads the
/// plaintext back out of it. Compressing into a `Vec` does not fail: the
/// writer never errs, and the deflater errs only on misuse.
#[verifier::external_body]
pub(crate) fn gzip(plain: &Vec<u8>) -> (r: Option<Vec<u8>>)
    ensures
        r is Some,
        r is Some ==> r->0@ == gzip_of(plain@),
        r is Some ==> gunzip_of(r->0@) == Some(plain@),
{
    let mut encoder = GzEncoder::new(Vec::new(), Compression::default());
    match encoder.write_all(plain) {
        Ok(()) => encoder.finish().ok(),
        Err(_) => None,
    }
}

/// Relies on flate2::read::GzDecoder and `read_to_end`: the bytes read, or
/// `None` on an error of the stream.
#[verifier::external_body]
pub(crate) fn gunzip(data: &Vec<u8>) -> (r: Option<Vec<u8>>)
    ensures
        r is Some <==> gunzip_of(data@) is Some,
        r is Some ==> r->0@ == gunzip_of(data@)->0,
{
    let mut decoder = GzDecoder::new(data.as_slice());
    let mut out = Vec::new();
    match decoder.read_to_end(&mut out) {
        Ok(_) => Some(out),
        Err(_) => None,
    }
}

/// The views of a list of byte vectors.
pub open spec fn byte_views(chunks: Seq<Vec<u8>>) -> Seq<Seq<u8>> {
    chunks.map_values(|c: Vec<u8>| c@)
}

/// The plaintext of the archive of a game whose promoted chunks are
/// `chunks`, in chunk id order: the header, then the chunks end to end.
pub open spec fn archive_plaintext(game_id: i32, chunks: Seq<Seq<u8>>) -> Seq<u8> {
    spec_header_bytes(game_id) + chunks.flatten()
}

/// Flattening one more sequence appends it.
pub proof fn lemma_flatten_push(s: Seq<Seq<u8>>, x: Seq<u8>)
    ensures
        s.push(x).flatten() == s.flatten() + x,
{
    lemma_flatten_concat(s, seq![x]);
    seq![x].lemma_flatten_one_element();
    assert(s.push(x) =~= s + seq![x]);
}

/// The plaintext of the archive of `game_id` over the chunks `chunks`.
pub fn archive_plaintext_bytes(game_id: i32, chunks: &Vec<Vec<u8>>) -> (r: Vec<u8>)
    ensures
        r@ == archive_plaintext(game_id, byte_views(chunks@)),
{
    let mut out = FileHeader::new(game_id).bytes();
    let ghost cs = byte_views(chunks@);
    let mut i: usize = 0;
    while i < chunks.len()
        invariant
            i <= chunks@.len(),
            cs == byte_views(chunks@),
            out@ == spec_header_bytes(game_id) + cs.take(i as int).flatten(),
        decreases chunks@.len() - i,
    {
        let mut c = chunks[i].clone();
        proof {
            lemma_flatten_push(cs.take(i as int), cs[i as int]);
            assert(cs.take(i as int).push(cs[i as int]) =~= cs.take(i + 1));
        }
        out.append(&mut c);
        i = i + 1;
        assert(out@ =~= spec_header_bytes(game_id) + cs.take(i as int).flatten());
    }
    assert(cs.take(i as int) =~= cs);
    out
}

/// The compressed archive of `game_id` over the chunks `chunks`.
pub fn build_archive_bytes(game_id: i32, chunks: &Vec<Vec<u8>>) -> (r: Vec<u8>)
    ensures
        r@ == gzip_of(archive_plaintext(game_id, byte_views(chunks@))),
        gunzip_of(r@) == Some(archive_plaintext(game_id, byte_views(chunks@))),
{
    let plain = archive_plaintext_bytes(game_id, chunks);
    match gzip(&plain) {
        Some(data) => data,
        None => Vec::new(),
    }
}

/// The compressed archive depends on the game id and the chunks alone: two
/// archives built over the same chunks of the same game are the same bytes.
pub proof fn lemma_archive_deterministic(
    game_id: i32,
    chunks_a: Seq<Seq<u8>>,
    chunks_b: Seq<Seq<u8>>,
    a: Seq<u8>,
    b: Seq<u8>,
)
    requires
        chunks_a == chunks_b,
        a == gzip_of(archive_plaintext(game_id, chunks_a)),
        b == gzip_of(archive_plaintext(game_id, chunks_b)),
    ensures
        a == b,
{
}

} // verus!
