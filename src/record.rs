use crate::error::Error;
use vstd::bytes::*;
use vstd::prelude::*;
use vstd::slice::slice_subrange;

verus! {

/// Largest number of bytes a chunk may hold; no record encodes to more.
pub const MAX_CHUNK_SIZE: usize = 4096;

pub const TAG_GAME_END: u8 = 0;

pub const TAG_STOP_LAG: u8 = 1;

pub const TAG_TICK_CHECKSUM: u8 = 2;

/// One game event of the log.
#[derive(Debug, Clone, Copy, PartialEq, Eq, Structural)]
pub enum Record {
    /// The game ended.
    GameEnd,
    /// The player with this id stopped lagging.
    StopLag(i32),
    /// The game state checksum at a tick.
    TickChecksum { tick: u32, checksum: u32 },
}

/// The bytes of one record: a tag byte, then its fields little-endian.
pub open spec fn spec_encode(r: Record) -> Seq<u8> {
    match r {
        Record::GameEnd => seq![TAG_GAME_END],
        Record::StopLag(v) => seq![TAG_STOP_LAG] + spec_u32_to_le_bytes(v as u32),
        Record::TickChecksum { tick, checksum } => seq![TAG_TICK_CHECKSUM]
            + spec_u32_to_le_bytes(tick) + spec_u32_to_le_bytes(checksum),
    }
}

/// The record at the front of `b` and the number of bytes it takes, if the
/// front of `b` is a well-formed record.
pub open spec fn spec_decode(b: Seq<u8>) -> Option<(Record, nat)> {
    if b.len() == 0 {
        None
    } else if b[0] == TAG_GAME_END {
        Some((Record::GameEnd, 1))
    } else if b[0] == TAG_STOP_LAG {
        if b.len() >= 5 {
            Some((Record::StopLag(spec_u32_from_le_bytes(b.subrange(1, 5)) as i32), 5))
        } else {
            None
        }
    } else if b[0] == TAG_TICK_CHECKSUM {
        if b.len() >= 9 {
            Some(
                (
                    Record::TickChecksum {
                        tick: spec_u32_from_le_bytes(b.subrange(1, 5)),
                        checksum: spec_u32_from_le_bytes(b.subrange(5, 9)),
                    },
                    9,
                ),
            )
        } else {
            None
        }
    } else {
        None
    }
}

/// The records of `rs` encoded one after another.
pub open spec fn encode_all(rs: Seq<Record>) -> Seq<u8>
    decreases rs.len(),
{
    if rs.len() == 0 {
        Seq::empty()
    } else {
        spec_encode(rs[0]) + encode_all(rs.drop_first())
    }
}

/// The records that `b` holds end to end, if it is a whole number of
/// well-formed records.
pub open spec fn decode_all(b: Seq<u8>) -> Option<Seq<Record>>
    decreases b.len(),
{
    if b.len() == 0 {
        Some(Seq::empty())
    } else {
        match spec_decode(b) {
            Some((r, n)) => if 0 < n <= b.len() {
                match decode_all(b.subrange(n as int, b.len() as int)) {
                    Some(rest) => Some(seq![r] + rest),
                    None => None,
                }
            } else {
                None
            },
            None => None,
        }
    }
}

proof fn lemma_i32_u32(v: i32, x: u32)
    ensures
        (v as u32) as i32 == v,
        (x as i32) as u32 == x,
{
    assert((v as u32) as i32 == v) by (bit_vector);
    assert((x as i32) as u32 == x) by (bit_vector);
}

/// Every record encodes to between 1 and 9 bytes.
pub proof fn lemma_encode_len(r: Record)
    ensures
        1 <= spec_encode(r).len() <= 9,
{
    lemma_auto_spec_u32_to_from_le_bytes();
}

/// Decoding the encoding of a record, whatever follows it, gives back the
/// record and the length of its encoding.
pub proof fn lemma_decode_encode(r: Record, rest: Seq<u8>)
    ensures
        spec_decode(spec_encode(r) + rest) == Some((r, spec_encode(r).len())),
{
    lemma_auto_spec_u32_to_from_le_bytes();
    let b = spec_encode(r) + rest;
    match r {
        Record::GameEnd => {},
        Record::StopLag(v) => {
            assert(b.subrange(1, 5) =~= spec_u32_to_le_bytes(v as u32));
            lemma_i32_u32(v, 0);
        },
        Record::TickChecksum { tick, checksum } => {
            assert(b.subrange(1, 5) =~= spec_u32_to_le_bytes(tick));
            assert(b.subrange(5, 9) =~= spec_u32_to_le_bytes(checksum));
        },
    }
}

/// The bytes a record is decoded from are exactly its encoding.
pub proof fn lemma_decode_canonical(b: Seq<u8>)
    requires
        spec_decode(b) is Some,
    ensures
        ({
            let (r, n) = spec_decode(b).unwrap();
            n <= b.len() && b.subrange(0, n as int) == spec_encode(r)
        }),
{
    lemma_auto_spec_u32_to_from_le_bytes();
    let (r, n) = spec_decode(b).unwrap();
    if b[0] == TAG_STOP_LAG {
        let x = spec_u32_from_le_bytes(b.subrange(1, 5));
        lemma_i32_u32(0, x);
        assert(b.subrange(0, 5) =~= seq![TAG_STOP_LAG] + b.subrange(1, 5));
    } else if b[0] == TAG_TICK_CHECKSUM {
        assert(b.subrange(0, 9) =~= seq![TAG_TICK_CHECKSUM] + b.subrange(1, 5) + b.subrange(5, 9));
    } else {
        assert(b.subrange(0, 1) =~= seq![b[0]]);
    }
}

/// Encoding a concatenation of record lists gives the concatenated encodings.
pub proof fn lemma_encode_all_concat(a: Seq<Record>, b: Seq<Record>)
    ensures
        encode_all(a + b) == encode_all(a) + encode_all(b),
    decreases a.len(),
{
    if a.len() == 0 {
        assert(a + b =~= b);
    } else {
        assert((a + b).drop_first() =~= a.drop_first() + b);
        lemma_encode_all_concat(a.drop_first(), b);
        assert(encode_all(a + b) =~= encode_all(a) + encode_all(b));
    }
}

/// Encoding a list with one more record appends that record's encoding.
pub proof fn lemma_encode_all_push(a: Seq<Record>, r: Record)
    ensures
        encode_all(a.push(r)) == encode_all(a) + spec_encode(r),
{
    lemma_encode_all_concat(a, seq![r]);
    assert(a.push(r) =~= a + seq![r]);
    assert(encode_all(seq![r]) =~= spec_encode(r)) by {
        assert(seq![r].drop_first() =~= Seq::<Record>::empty());
        assert(encode_all(seq![r].drop_first()) == Seq::<u8>::empty());
    }
}

/// Decoding the encodings of a list of records gives back the list.
pub proof fn lemma_decode_all_encode_all(rs: Seq<Record>)
    ensures
        decode_all(encode_all(rs)) == Some(rs),
    decreases rs.len(),
{
    if rs.len() > 0 {
        let b = encode_all(rs);
        let e = spec_encode(rs[0]);
        let rest = encode_all(rs.drop_first());
        lemma_decode_encode(rs[0], rest);
        lemma_encode_len(rs[0]);
        assert(b.subrange(e.len() as int, b.len() as int) =~= rest);
        lemma_decode_all_encode_all(rs.drop_first());
        assert(seq![rs[0]] + rs.drop_first() =~= rs);
    }
}

/// A byte run that decodes to whole records is the encoding of those records.
pub proof fn lemma_encode_all_decode_all(b: Seq<u8>)
    requires
        decode_all(b) is Some,
    ensures
        encode_all(decode_all(b).unwrap()) == b,
    decreases b.len(),
{
    if b.len() > 0 {
        let (r, n) = spec_decode(b).unwrap();
        let tail = b.subrange(n as int, b.len() as int);
        lemma_decode_canonical(b);
        lemma_encode_all_decode_all(tail);
        let rs = decode_all(b).unwrap();
        assert(rs.drop_first() =~= decode_all(tail).unwrap());
        assert(b =~= b.subrange(0, n as int) + tail);
    }
}

/// Whether `buf` is a whole number of well-formed records.
pub fn is_whole_records(buf: &Vec<u8>) -> (r: bool)
    ensures
        r == decode_all(buf@) is Some,
{
    let mut pos: usize = 0;
    assert(buf@.subrange(0, buf@.len() as int) =~= buf@);
    while pos < buf.len()
        invariant
            pos <= buf@.len(),
            decode_all(buf@) is Some <==> decode_all(buf@.subrange(pos as int, buf@.len() as int)) is Some,
        decreases buf@.len() - pos,
    {
        let ghost rest = buf@.subrange(pos as int, buf@.len() as int);
        match Record::decode(buf, pos) {
            Ok((_, next)) => {
                proof {
                    lemma_decode_canonical(rest);
                    let (_, n) = spec_decode(rest)->0;
                    assert(rest.subrange(n as int, rest.len() as int) =~= buf@.subrange(
                        next as int,
                        buf@.len() as int,
                    ));
                }
                pos = next;
            },
            Err(_) => {
                return false;
            },
        }
    }
    assert(buf@.subrange(pos as int, buf@.len() as int) =~= Seq::<u8>::empty());
    true
}

impl Record {
    /// Number of bytes `encode` appends for this record.
    pub fn encoded_size(&self) -> (r: usize)
        ensures
            r == spec_encode(*self).len(),
    {
        proof {
            lemma_auto_spec_u32_to_from_le_bytes();
        }
        match self {
            Record::GameEnd => 1,
            Record::StopLag(_) => 5,
            Record::TickChecksum { .. } => 9,
        }
    }

    /// Appends the encoding of this record to `out`.
    pub fn encode(&self, out: &mut Vec<u8>)
        ensures
            final(out)@ == old(out)@ + spec_encode(*self),
    {
        match self {
            Record::GameEnd => {
                out.push(TAG_GAME_END);
            },
            Record::StopLag(v) => {
                out.push(TAG_STOP_LAG);
                let mut b = u32_to_le_bytes(*v as u32);
                out.append(&mut b);
            },
            Record::TickChecksum { tick, checksum } => {
                out.push(TAG_TICK_CHECKSUM);
                let mut b = u32_to_le_bytes(*tick);
                out.append(&mut b);
                let mut c = u32_to_le_bytes(*checksum);
                out.append(&mut c);
            },
        }
        assert(final(out)@ =~= old(out)@ + spec_encode(*self));
    }

    /// Decodes the record that starts at `pos` in `buf`, returning it with
    /// the position just past it.
    pub fn decode(buf: &Vec<u8>, pos: usize) -> (r: Result<(Record, usize), Error>)
        requires
            pos <= buf@.len(),
        ensures
            match spec_decode(buf@.subrange(pos as int, buf@.len() as int)) {
                Some((rec, n)) => r == Ok::<(Record, usize), Error>((rec, (pos + n) as usize)),
                None => r == Err::<(Record, usize), Error>(Error::RecordDecode),
            },
    {
        let ghost b = buf@.subrange(pos as int, buf@.len() as int);
        let len = buf.len();
        if pos >= len {
            return Err(Error::RecordDecode);
        }
        let tag = buf[pos];
        assert(b[0] == tag);
        if tag == TAG_GAME_END {
            Ok((Record::GameEnd, pos + 1))
        } else if tag == TAG_STOP_LAG {
            if len - pos < 5 {
                return Err(Error::RecordDecode);
            }
            let s = slice_subrange(buf.as_slice(), pos + 1, pos + 5);
            assert(s@ =~= b.subrange(1, 5));
            let x = u32_from_le_bytes(s);
            Ok((Record::StopLag(x as i32), pos + 5))
        } else if tag == TAG_TICK_CHECKSUM {
            if len - pos < 9 {
                return Err(Error::RecordDecode);
            }
            let s = slice_subrange(buf.as_slice(), pos + 1, pos + 5);
            assert(s@ =~= b.subrange(1, 5));
            let tick = u32_from_le_bytes(s);
            let t = slice_subrange(buf.as_slice(), pos + 5, pos + 9);
            assert(t@ =~= b.subrange(5, 9));
            let checksum = u32_from_le_bytes(t);
            Ok((Record::TickChecksum { tick, checksum }, pos + 9))
        } else {
            Err(Error::RecordDecode)
        }
    }
}

} // verus!
