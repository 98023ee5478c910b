use crate::error::Error;
use vstd::bytes::*;
use vstd::prelude::*;
use vstd::slice::slice_subrange;

verus! {

/// Number of bytes of an archive header.
pub const HEADER_SIZE: usize = 8;

/// The four signature bytes that open every archive: "flo" then 1.
pub open spec fn signature() -> Seq<u8> {
    seq![0x66u8, 0x6cu8, 0x6fu8, 0x01u8]
}

/// The header bytes of the archive of a game: the signature, then the game
/// id little-endian.
pub open spec fn spec_header_bytes(game_id: i32) -> Seq<u8> {
    signature() + spec_u32_to_le_bytes(game_id as u32)
}

/// The game id that the header at the front of `b` names, if `b` holds a
/// whole header with the right signature.
pub open spec fn spec_decode_header(b: Seq<u8>) -> Option<i32> {
    if b.len() >= 8 && b.subrange(0, 4) == signature() {
        Some(spec_u32_from_le_bytes(b.subrange(4, 8)) as i32)
    } else {
        None
    }
}

/// Decoding header bytes, whatever follows them, gives back the game id.
pub proof fn lemma_header_round_trip(game_id: i32, rest: Seq<u8>)
    ensures
        spec_header_bytes(game_id).len() == 8,
        spec_decode_header(spec_header_bytes(game_id) + rest) == Some(game_id),
{
    lemma_auto_spec_u32_to_from_le_bytes();
    let b = spec_header_bytes(game_id) + rest;
    assert(b.subrange(0, 4) =~= signature());
    assert(b.subrange(4, 8) =~= spec_u32_to_le_bytes(game_id as u32));
    assert(((game_id as u32) as i32) == game_id) by (bit_vector);
}

/// The fixed header at the front of an archive.
#[derive(Debug, Clone, Copy, PartialEq, Eq, Structural)]
pub struct FileHeader {
    pub game_id: i32,
}

impl FileHeader {
    pub fn new(game_id: i32) -> (r: FileHeader)
        ensures
            r.game_id == game_id,
    {
        FileHeader { game_id }
    }

    /// The eight bytes of this header.
    pub fn bytes(&self) -> (r: Vec<u8>)
        ensures
            r@ == spec_header_bytes(self.game_id),
    {
        let mut buf: Vec<u8> = vec![0x66u8, 0x6cu8, 0x6fu8, 0x01u8];
        let mut id = u32_to_le_bytes(self.game_id as u32);
        buf.append(&mut id);
        assert(buf@ =~= spec_header_bytes(self.game_id));
        buf
    }

    /// Reads the header at the front of `b`.
    pub fn decode(b: &Vec<u8>) -> (r: Result<FileHeader, Error>)
        ensures
            match spec_decode_header(b@) {
                Some(g) => r == Ok::<FileHeader, Error>(FileHeader { game_id: g }),
                None => r == Err::<FileHeader, Error>(Error::DecodeArchiveHeader),
            },
    {
        if b.len() < HEADER_SIZE {
            return Err(Error::DecodeArchiveHeader);
        }
        if !(b[0] == 0x66u8 && b[1] == 0x6cu8 && b[2] == 0x6fu8 && b[3] == 0x01u8) {
            assert(b@.subrange(0, 4) != signature()) by {
                if b@.subrange(0, 4) == signature() {
                    assert(b@.subrange(0, 4)[0] == b@[0]);
                    assert(b@.subrange(0, 4)[1] == b@[1]);
                    assert(b@.subrange(0, 4)[2] == b@[2]);
                    assert(b@.subrange(0, 4)[3] == b@[3]);
                }
            }
            return Err(Error::DecodeArchiveHeader);
        }
        assert(b@.subrange(0, 4) =~= signature());
        let s = slice_subrange(b.as_slice(), 4, 8);
        let x = u32_from_le_bytes(s);
        Ok(FileHeader { game_id: x as i32 })
    }
}

} // verus!
